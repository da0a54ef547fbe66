use vstd::prelude::*;
use vstd::string::StringExecFns;
use crate::ast::{
    Argument, BinaryOperator, BuiltinFunctionType, DataStorageType, Expr, Parameter, Program,
    Segment, Segments, Statement, Type, args_view, strings_view,
    lemma_args_view_push, lemma_stmts_view_len, lemma_stmts_view_push, params_view, stmts_view,
};
use crate::error::CompileError;
use crate::grammar::{
    PState, Parsed, found_message, adv, ahead_is, back, sp_args, sp_assignment, sp_block, sp_braced, sp_builtin, sp_call,
    sp_conditional, sp_decl, sp_expect, sp_expr_stmt, sp_expression, sp_for, sp_function,
    sp_ident, sp_if, sp_param_list, sp_params, sp_return, sp_statement, sp_type, sp_unary,
    sp_var_decl, sp_while, tokens_wf, body_strings,
    data_segment, first_occurrences, literal_strings, sp_parse, sp_program, start_function,
    stmt_strings, text_strings,
};
use crate::text::{dec_seq, decimal_string};
use crate::token::{Token, TokenV, tokens_view};
use crate::ast::ExprV;

verus! {

/// The parse failed: a parse error, which carries no line.
pub open spec fn parse_failure(e: CompileError) -> bool {
    e is ParseError && e.line_of() == 0
}

/// `e` is the parse error for the failure of the grammar's outcome `r`, with its message.
pub open spec fn fails_with<A>(r: Result<A, Seq<char>>, e: CompileError) -> bool {
    &&& r is Err
    &&& parse_failure(e)
    &&& e.message_of() == r->Err_0
}

/// `pre` placed in front of the items of a successful parse.
pub open spec fn prefixed<A>(pre: Seq<A>, r: Parsed<Seq<A>>) -> Parsed<Seq<A>> {
    match r {
        Ok((rest, s)) => Ok((pre + rest, s)),
        Err(m) => Err(m),
    }
}

/// `prefix`, then `n` in decimal, then `suffix`.
fn make_label(prefix: &str, n: usize, suffix: &str) -> (r: String)
    ensures
        r@ == prefix@ + dec_seq(n as nat) + suffix@,
{
    let mut out = String::from_str(prefix);
    let digits = decimal_string(n);
    out.append(digits.as_str());
    out.append(suffix);
    out
}

/// `prefix`, then `n` in decimal.
fn make_numbered(prefix: &str, n: usize) -> (r: String)
    ensures
        r@ == prefix@ + dec_seq(n as nat),
{
    let mut out = String::from_str(prefix);
    let digits = decimal_string(n);
    out.append(digits.as_str());
    out
}

/// The entry function: calls `main`, then makes the exit system call.
fn start_statement() -> (r: Statement)
    ensures
        r.view() == start_function(),
{
    let mut jal_operands: Vec<String> = Vec::new();
    jal_operands.push(String::from_str("main"));
    let jal = Statement::Instruction { opcode: String::from_str("jal"), operands: jal_operands };
    let mut li_operands: Vec<String> = Vec::new();
    li_operands.push(String::from_str("$v0, 10"));
    let li = Statement::Instruction { opcode: String::from_str("li"), operands: li_operands };
    let syscall = Statement::Instruction { opcode: String::from_str("syscall"), operands: Vec::new() };
    proof {
        assert(strings_view(jal_operands@) =~= seq!["main"@]);
        assert(strings_view(li_operands@) =~= seq!["$v0, 10"@]);
        assert(strings_view(Seq::<String>::empty()) =~= seq![]);
    }
    let mut body: Vec<Statement> = Vec::new();
    proof {
        lemma_stmts_view_push(body@, jal);
    }
    body.push(jal);
    proof {
        lemma_stmts_view_push(body@, li);
    }
    body.push(li);
    proof {
        lemma_stmts_view_push(body@, syscall);
    }
    body.push(syscall);
    proof {
        assert(params_view(Seq::<Parameter>::empty()) =~= seq![]);
        assert(stmts_view(body@) =~= seq![
            crate::ast::StatementV::Instruction { opcode: "jal"@, operands: seq!["main"@] },
            crate::ast::StatementV::Instruction { opcode: "li"@, operands: seq!["$v0, 10"@] },
            crate::ast::StatementV::Instruction { opcode: "syscall"@, operands: seq![] },
        ]);
    }
    Statement::Function {
        name: String::from_str("_start"),
        params: Vec::new(),
        return_type: Type::Void,
        body,
        use_stack: false,
    }
}

/// Whether `v` holds a string equal to `s`.
fn contains_string(v: &Vec<String>, s: &String) -> (r: bool)
    ensures
        r == strings_view(v@).contains(s@),
{
    let mut i: usize = 0;
    while i < v.len()
        invariant
            i <= v@.len(),
            forall|j: int| 0 <= j < i ==> v@[j]@ != s@,
        decreases v@.len() - i,
    {
        if v[i] == *s {
            assert(strings_view(v@)[i as int] == s@);
            return true;
        }
        i = i + 1;
    }
    proof {
        if strings_view(v@).contains(s@) {
            let j = choose|j: int| 0 <= j < strings_view(v@).len() && strings_view(v@)[j] == s@;
            assert(v@[j]@ == s@);
        }
    }
    false
}

/// Appends the string literals among `arguments` to `strings`.
fn collect_literal_arguments(arguments: &Vec<Argument>, strings: &mut Vec<String>)
    ensures
        strings_view(final(strings)@) == strings_view(old(strings)@) + literal_strings(
            args_view(arguments@),
        ),
{
    let mut i: usize = 0;
    while i < arguments.len()
        invariant
            i <= arguments@.len(),
            strings_view(strings@) == strings_view(old(strings)@) + literal_strings(
                args_view(arguments@.subrange(0, i as int)),
            ),
        decreases arguments@.len() - i,
    {
        let ghost before = strings_view(strings@);
        let ghost sub = arguments@.subrange(0, i as int);
        proof {
            lemma_args_view_push(sub, arguments@[i as int]);
            assert(sub.push(arguments@[i as int]) =~= arguments@.subrange(0, i + 1));
            assert(args_view(arguments@.subrange(0, i + 1)).drop_last() =~= args_view(sub));
        }
        if let Expr::StringLiteral(value) = &arguments[i].expr {
            strings.push(value.clone());
            proof {
                assert(strings_view(strings@) =~= before + seq![value@]);
            }
        } else {
            proof {
                assert(before + seq![] =~= before);
            }
        }
        i = i + 1;
    }
    proof {
        assert(arguments@.subrange(0, arguments@.len() as int) =~= arguments@);
    }
}

/// A recursive-descent parser over a token sequence ended by the end marker.
pub struct Parser {
    tokens: Vec<Token>,
    current: usize,
    num_while: usize,
    num_for: usize,
    num_if: usize,
}

impl Parser {
    /// The values of the tokens.
    pub closed spec fn ts(&self) -> Seq<TokenV> {
        tokens_view(self.tokens@)
    }

    /// The cursor and the label counters.
    pub closed spec fn st(&self) -> PState {
        PState {
            pos: self.current as int,
            nw: self.num_while as nat,
            nf: self.num_for as nat,
            ni: self.num_if as nat,
        }
    }

    /// The tokens end with the end marker, the cursor is on one of them, and fewer
    /// constructs have been labelled than tokens passed.
    pub closed spec fn wf(&self) -> bool {
        &&& tokens_wf(self.ts())
        &&& self.current < self.tokens@.len()
        &&& self.num_while + self.num_for + self.num_if <= self.current
    }

    /// Tokens passed but not yet spent on a label.
    pub closed spec fn budget(&self) -> int {
        self.current - (self.num_while + self.num_for + self.num_if)
    }

    /// `later` is this parser after a step: the same tokens, still well formed.
    pub closed spec fn kept_in(&self, later: &Parser) -> bool {
        &&& later.tokens@ == self.tokens@
        &&& later.wf()
    }

    /// `later` is past this parser's cursor, with at least as many tokens unspent on labels.
    pub closed spec fn advanced_to(&self, later: &Parser) -> bool {
        &&& later.current > self.current
        &&& later.budget() >= self.budget()
    }

    /// `later` has the same label counters as this parser.
    pub closed spec fn same_counts(&self, later: &Parser) -> bool {
        &&& later.num_while == self.num_while
        &&& later.num_for == self.num_for
        &&& later.num_if == self.num_if
    }

    pub fn new(tokens: Vec<Token>) -> (r: Parser)
        requires
            tokens_wf(tokens_view(tokens@)),
        ensures
            r.wf(),
            r.ts() == tokens_view(tokens@),
            r.st() == (PState { pos: 0, nw: 0, nf: 0, ni: 0 }),
    {
        Parser { tokens, current: 0, num_while: 0, num_for: 0, num_if: 0 }
    }

    fn peek(&self) -> (t: &Token)
        requires
            self.wf(),
        ensures
            t.view() == self.ts()[self.current as int],
    {
        &self.tokens[self.current]
    }

    /// The token `n` places after the cursor, if there is one.
    fn peek_ahead(&self, n: usize) -> (r: Option<&Token>)
        requires
            self.wf(),
        ensures
            match r {
                Some(t) => self.current + n < self.tokens@.len() && t.view() == self.ts()[self.current + n],
                None => self.current + n >= self.tokens@.len(),
            },
    {
        if n < self.tokens.len() - self.current {
            Some(&self.tokens[self.current + n])
        } else {
            None
        }
    }

    /// Whether the token `n` places after the cursor is `(`.
    fn paren_ahead(&self, n: usize) -> (r: bool)
        requires
            self.wf(),
        ensures
            r == ahead_is(self.ts(), self.st(), n as int, TokenV::LeftParen),
    {
        match self.peek_ahead(n) {
            Some(Token::LeftParen) => true,
            _ => false,
        }
    }

    fn advance(&mut self)
        requires
            old(self).wf(),
        ensures
            old(self).kept_in(final(self)),
            old(self).same_counts(final(self)),
            final(self).st() == adv(old(self).ts(), old(self).st()),
            final(self).current >= old(self).current,
    {
        if self.current < self.tokens.len() - 1 {
            self.current = self.current + 1;
        }
    }

    fn backtrack(&mut self)
        requires
            old(self).wf(),
            old(self).budget() >= 1,
        ensures
            old(self).kept_in(final(self)),
            old(self).same_counts(final(self)),
            final(self).st() == back(old(self).st()),
            final(self).current + 1 == old(self).current,
    {
        self.current = self.current - 1;
    }

    fn is_at_end(&self) -> (r: bool)
        requires
            self.wf(),
        ensures
            r == (self.ts()[self.current as int] == TokenV::Eof),
    {
        match self.peek() {
            Token::Eof => true,
            _ => false,
        }
    }

    /// A parse error that names what was expected and the token found instead.
    fn error_found(&self, expected: &str) -> (e: CompileError)
        requires
            self.wf(),
        ensures
            parse_failure(e),
            e.message_of() == found_message(expected@, self.ts()[self.current as int]),
    {
        let mut message = String::from_str("Expected ");
        message.append(expected);
        message.append(", found ");
        message.append(self.peek().kind_name());
        CompileError::ParseError { message, line: 0 }
    }

    fn expect(&mut self, expected: Token) -> (r: Result<(), CompileError>)
        requires
            old(self).wf(),
        ensures
            old(self).kept_in(final(self)),
            old(self).same_counts(final(self)),
            final(self).current >= old(self).current,
            match r {
                Ok(_) => sp_expect(old(self).ts(), old(self).st(), expected.view()) == Ok::<_, Seq<char>>(final(self).st()),
                Err(e) => fails_with(sp_expect(old(self).ts(), old(self).st(), expected.view()), e)
                    && final(self).st() == old(self).st(),
            },
    {
        if *self.peek() == expected {
            self.advance();
            Ok(())
        } else {
            let mut message = String::from_str("Expected ");
            message.append(expected.kind_name());
            message.append(", found ");
            message.append(self.peek().kind_name());
            Err(CompileError::ParseError { message, line: 0 })
        }
    }

    fn parse_type(&mut self) -> (r: Result<crate::ast::Type, CompileError>)
        requires
            old(self).wf(),
        ensures
            old(self).kept_in(final(self)),
            old(self).same_counts(final(self)),
            final(self).current >= old(self).current,
            match r {
                Ok(t) => sp_type(old(self).ts(), old(self).st()) == Ok::<_, Seq<char>>((t, final(self).st()))
                    && final(self).current > old(self).current,
                Err(e) => fails_with(sp_type(old(self).ts(), old(self).st()), e),
            },
    {
        let typ = match self.peek() {
            Token::Void => crate::ast::Type::Void,
            Token::Int32 => crate::ast::Type::Int32,
            Token::Bool => crate::ast::Type::Bool,
            Token::String => crate::ast::Type::String,
            _ => {
                return Err(self.error_found("type"));
            },
        };
        self.advance();
        Ok(typ)
    }

    fn parse_identifier(&mut self) -> (r: Result<String, CompileError>)
        requires
            old(self).wf(),
        ensures
            old(self).kept_in(final(self)),
            old(self).same_counts(final(self)),
            final(self).current >= old(self).current,
            match r {
                Ok(name) => sp_ident(old(self).ts(), old(self).st()) == Ok::<_, Seq<char>>((name@, final(self).st())),
                Err(e) => fails_with(sp_ident(old(self).ts(), old(self).st()), e),
            },
    {
        match self.peek() {
            Token::Identifier(name) => {
                let name = name.clone();
                self.advance();
                Ok(name)
            },
            _ => Err(self.error_found("identifier")),
        }
    }

    /// An expression; a name followed by `(` is a call, which takes its own `;`.
    fn parse_expression(&mut self) -> (r: Result<Expr, CompileError>)
        requires
            old(self).wf(),
        ensures
            old(self).kept_in(final(self)),
            old(self).same_counts(final(self)),
            final(self).current >= old(self).current,
            match r {
                Ok(e) => sp_expression(old(self).ts(), old(self).st()) == Ok::<_, Seq<char>>((e.view(), final(self).st()))
                    && final(self).current > old(self).current,
                Err(e) => fails_with(sp_expression(old(self).ts(), old(self).st()), e)
                    && (!(old(self).ts()[old(self).current as int] is Identifier) ==> final(self).st()
                    == old(self).st()),
            },
        decreases old(self).tokens@.len() - old(self).current, 3int,
    {
        match self.peek() {
            Token::Integer(n) => {
                let n = *n;
                self.advance();
                Ok(Expr::Integer(n))
            },
            Token::Identifier(name) => {
                let name = name.clone();
                if self.paren_ahead(1) {
                    match self.parse_call() {
                        Ok(arguments) => Ok(Expr::FunctionCall { function_name: name, arguments }),
                        Err(e) => Err(e),
                    }
                } else {
                    self.advance();
                    Ok(Expr::Identifier(name))
                }
            },
            Token::StringLiteral(s) => {
                let s = s.clone();
                self.advance();
                Ok(Expr::StringLiteral(s))
            },
            Token::BoolLiteral(b) => {
                let b = *b;
                self.advance();
                Ok(Expr::BoolLiteral(b))
            },
            _ => Err(self.error_found("expression")),
        }
    }

    /// `name ( args ) ;` with the cursor on the name: the arguments.
    fn parse_call(&mut self) -> (r: Result<Vec<Argument>, CompileError>)
        requires
            old(self).wf(),
            old(self).ts()[old(self).current as int] is Identifier,
        ensures
            old(self).kept_in(final(self)),
            old(self).same_counts(final(self)),
            final(self).current >= old(self).current,
            match r {
                Ok(args) => sp_call(old(self).ts(), old(self).st()) == Ok::<_, Seq<char>>((args_view(args@), final(self).st()))
                    && final(self).current > old(self).current,
                Err(e) => fails_with(sp_call(old(self).ts(), old(self).st()), e),
            },
        decreases old(self).tokens@.len() - old(self).current, 2int,
    {
        self.advance();
        match self.expect(Token::LeftParen) {
            Ok(()) => {},
            Err(e) => {
                return Err(e);
            },
        }
        let arguments = match self.parse_arguments() {
            Ok(a) => a,
            Err(e) => {
                return Err(e);
            },
        };
        match self.expect(Token::RightParen) {
            Ok(()) => {},
            Err(e) => {
                return Err(e);
            },
        }
        match self.expect(Token::Semicolon) {
            Ok(()) => {},
            Err(e) => {
                return Err(e);
            },
        }
        Ok(arguments)
    }

    /// `name ( args ) ;` as a statement, with the cursor on the name.
    fn parse_function_call(&mut self, function_name: String) -> (r: Result<Statement, CompileError>)
        requires
            old(self).wf(),
            old(self).ts()[old(self).current as int] == TokenV::Identifier(function_name@),
        ensures
            old(self).kept_in(final(self)),
            old(self).same_counts(final(self)),
            match r {
                Ok(s) => sp_call(old(self).ts(), old(self).st()) matches Ok((args, s1)) && s.view()
                    == (crate::ast::StatementV::FunctionCall {
                    function_name: function_name@,
                    arguments: args,
                }) && s1 == final(self).st() && final(self).current > old(self).current,
                Err(e) => fails_with(sp_call(old(self).ts(), old(self).st()), e),
            },
    {
        match self.parse_call() {
            Ok(arguments) => Ok(Statement::FunctionCall { function_name, arguments }),
            Err(e) => Err(e),
        }
    }


    /// `return expr ;`
    fn parse_return(&mut self) -> (r: Result<Statement, CompileError>)
        requires
            old(self).wf(),
            old(self).ts()[old(self).current as int] == TokenV::Return,
        ensures
            old(self).kept_in(final(self)),
            old(self).same_counts(final(self)),
            match r {
                Ok(s) => sp_return(old(self).ts(), old(self).st()) == Ok::<_, Seq<char>>((s.view(), final(self).st()))
                    && old(self).advanced_to(final(self)),
                Err(e) => fails_with(sp_return(old(self).ts(), old(self).st()), e),
            },
    {
        self.advance();
        let value = match self.parse_expression() {
            Ok(e) => e,
            Err(e) => {
                return Err(e);
            },
        };
        match self.expect(Token::Semicolon) {
            Ok(()) => {},
            Err(e) => {
                return Err(e);
            },
        }
        Ok(Statement::Return { value })
    }

    /// An optional `!`: the given sense, flipped when the `!` is there.
    fn parse_not(&mut self, default_is_not: bool) -> (r: bool)
        requires
            old(self).wf(),
        ensures
            old(self).kept_in(final(self)),
            old(self).same_counts(final(self)),
            final(self).current >= old(self).current,
            crate::grammar::sp_not(old(self).ts(), old(self).st(), default_is_not) == (r, final(self).st()),
    {
        match self.peek() {
            Token::Not => {
                self.advance();
                !default_is_not
            },
            _ => default_is_not,
        }
    }

    /// `type name [= [!] expr [(+|-) expr]] ;`; a call initializer has taken the `;` itself.
    fn parse_variable_declaration(&mut self) -> (r: Result<Statement, CompileError>)
        requires
            old(self).wf(),
        ensures
            old(self).kept_in(final(self)),
            old(self).same_counts(final(self)),
            match r {
                Ok(s) => sp_var_decl(old(self).ts(), old(self).st()) == Ok::<_, Seq<char>>((s.view(), final(self).st()))
                    && old(self).advanced_to(final(self)),
                Err(e) => fails_with(sp_var_decl(old(self).ts(), old(self).st()), e),
            },
    {
        let var_type = match self.parse_type() {
            Ok(t) => t,
            Err(e) => {
                return Err(e);
            },
        };
        let identifier = match self.parse_identifier() {
            Ok(n) => n,
            Err(e) => {
                return Err(e);
            },
        };
        proof {
            reveal_with_fuel(Expr::view, 2);
        }
        let mut should_expect_semicolon = true;
        let res_statement;
        match self.peek() {
            Token::Equal => {
                self.advance();
                let is_not = self.parse_not(false);
                let left = match self.parse_expression() {
                    Ok(e) => e,
                    Err(e) => {
                        return Err(e);
                    },
                };
                if let Expr::FunctionCall { .. } = left {
                    should_expect_semicolon = false;
                }
                let operator = match self.peek() {
                    Token::Plus => BinaryOperator::Add,
                    Token::Minus => BinaryOperator::Subtract,
                    _ => BinaryOperator::Empty,
                };
                let right = if operator != BinaryOperator::Empty {
                    self.advance();
                    match self.parse_expression() {
                        Ok(e) => e,
                        Err(e) => {
                            return Err(e);
                        },
                    }
                } else {
                    Expr::Empty
                };
                res_statement = Statement::VariableDeclaration {
                    var_type,
                    identifier,
                    operation: Expr::BinaryOp {
                        left: Box::new(left),
                        operator,
                        right: Box::new(right),
                        is_not,
                    },
                };
            },
            _ => {
                res_statement = Statement::VariableDeclaration {
                    var_type,
                    identifier,
                    operation: Expr::BinaryOp {
                        left: Box::new(Expr::Empty),
                        operator: BinaryOperator::Empty,
                        right: Box::new(Expr::Empty),
                        is_not: false,
                    },
                };
            },
        }
        if should_expect_semicolon {
            match self.expect(Token::Semicolon) {
                Ok(()) => {},
                Err(e) => {
                    return Err(e);
                },
            }
        }
        Ok(res_statement)
    }

    /// `= [!] expr [(+|-) expr] ;` after `identifier`, which must be a name.
    fn parse_assignment(&mut self, identifier: Expr) -> (r: Result<Statement, CompileError>)
        requires
            old(self).wf(),
            old(self).ts()[old(self).current as int] == TokenV::Equal,
        ensures
            old(self).kept_in(final(self)),
            old(self).same_counts(final(self)),
            match r {
                Ok(s) => sp_assignment(old(self).ts(), old(self).st(), identifier.view()) == Ok::<_, Seq<char>>(
                    (s.view(), final(self).st()),
                ) && old(self).advanced_to(final(self)),
                Err(e) => fails_with(sp_assignment(old(self).ts(), old(self).st(), identifier.view()), e),
            },
    {
        self.advance();
        let is_not = self.parse_not(false);
        let left = match self.parse_expression() {
            Ok(e) => e,
            Err(e) => {
                return Err(e);
            },
        };
        let operator = match self.peek() {
            Token::Plus => BinaryOperator::Add,
            Token::Minus => BinaryOperator::Subtract,
            _ => BinaryOperator::Empty,
        };
        let value = if operator != BinaryOperator::Empty {
            self.advance();
            let right = match self.parse_expression() {
                Ok(e) => e,
                Err(e) => {
                    return Err(e);
                },
            };
            Expr::BinaryOp { left: Box::new(left), operator, right: Box::new(right), is_not }
        } else {
            left
        };
        match self.expect(Token::Semicolon) {
            Ok(()) => {},
            Err(e) => {
                return Err(e);
            },
        }
        match identifier {
            Expr::Identifier(name) => Ok(Statement::VariableAssignment { identifier: name, operation: value }),
            _ => Err(
                CompileError::ParseError {
                    message: String::from_str("Left side of assignment must be an identifier"),
                    line: 0,
                },
            ),
        }
    }

    /// `name ++` or `name --` with the cursor on the operator: the name is read again.
    fn parse_unary(&mut self) -> (r: Result<Statement, CompileError>)
        requires
            old(self).wf(),
            old(self).budget() >= 1,
            old(self).ts()[old(self).current as int] == TokenV::PlusPlus
                || old(self).ts()[old(self).current as int] == TokenV::MinusMinus,
        ensures
            old(self).kept_in(final(self)),
            old(self).same_counts(final(self)),
            match r {
                Ok(s) => sp_unary(old(self).ts(), old(self).st()) == Ok::<_, Seq<char>>((s.view(), final(self).st()))
                    && old(self).advanced_to(final(self)),
                Err(e) => fails_with(sp_unary(old(self).ts(), old(self).st()), e),
            },
    {
        proof {
            reveal_with_fuel(Expr::view, 2);
        }
        self.backtrack();
        let identifier = match self.parse_expression() {
            Ok(e) => e,
            Err(e) => {
                return Err(e);
            },
        };
        let name = match &identifier {
            Expr::Identifier(n) => n.clone(),
            _ => {
                return Err(
                    CompileError::ParseError {
                        message: String::from_str("Left side of unary must be an identifier"),
                        line: 0,
                    },
                );
            },
        };
        let operation = match self.peek() {
            Token::PlusPlus => Expr::BinaryOp {
                left: Box::new(identifier),
                operator: BinaryOperator::Add,
                right: Box::new(Expr::Integer(1)),
                is_not: false,
            },
            Token::MinusMinus => Expr::BinaryOp {
                left: Box::new(identifier),
                operator: BinaryOperator::Subtract,
                right: Box::new(Expr::Integer(1)),
                is_not: false,
            },
            _ => Expr::Empty,
        };
        self.advance();
        Ok(Statement::VariableAssignment { identifier: name, operation })
    }

    /// An expression statement: an assignment, an increment or decrement, or `expr ;`.
    fn parse_expression_statement(&mut self) -> (r: Result<Statement, CompileError>)
        requires
            old(self).wf(),
        ensures
            old(self).kept_in(final(self)),
            old(self).same_counts(final(self)),
            match r {
                Ok(s) => sp_expr_stmt(old(self).ts(), old(self).st()) == Ok::<_, Seq<char>>((s.view(), final(self).st()))
                    && old(self).advanced_to(final(self)),
                Err(e) => fails_with(sp_expr_stmt(old(self).ts(), old(self).st()), e),
            },
    {
        let expr = match self.parse_expression() {
            Ok(e) => e,
            Err(e) => {
                return Err(e);
            },
        };
        match self.peek() {
            Token::Equal => {
                return self.parse_assignment(expr);
            },
            Token::PlusPlus | Token::MinusMinus => {
                return self.parse_unary();
            },
            _ => {},
        }
        match self.expect(Token::Semicolon) {
            Ok(()) => {},
            Err(e) => {
                return Err(e);
            },
        }
        Ok(Statement::ExprStatement(expr))
    }

    /// A condition: `[!] expr [cmp expr]`, up to but not including `)`.
    fn parse_conditional(&mut self, default_is_not: bool) -> (r: Result<Expr, CompileError>)
        requires
            old(self).wf(),
        ensures
            old(self).kept_in(final(self)),
            old(self).same_counts(final(self)),
            final(self).current >= old(self).current,
            match r {
                Ok(e) => sp_conditional(old(self).ts(), old(self).st(), default_is_not) == Ok::<_, Seq<char>>(
                    (e.view(), final(self).st()),
                ),
                Err(e) => fails_with(sp_conditional(old(self).ts(), old(self).st(), default_is_not), e),
            },
    {
        proof {
            reveal_with_fuel(Expr::view, 2);
        }
        let is_not = self.parse_not(default_is_not);
        let left = match self.parse_expression() {
            Ok(e) => e,
            Err(e) => {
                return Err(e);
            },
        };
        let operator = match self.peek() {
            Token::RightParen => {
                return Ok(
                    Expr::BinaryOp {
                        left: Box::new(left),
                        operator: BinaryOperator::Equal,
                        right: Box::new(Expr::Empty),
                        is_not,
                    },
                );
            },
            Token::LessThan => BinaryOperator::LessThan,
            Token::GreaterThan => BinaryOperator::GreaterThan,
            Token::LessThanEqual => BinaryOperator::LessEqual,
            Token::GreaterThanEqual => BinaryOperator::GreaterEqual,
            Token::EqualEqual => BinaryOperator::Equal,
            Token::NotEqual => BinaryOperator::NotEqual,
            _ => {
                return Err(self.error_found("comparison operator"));
            },
        };
        self.advance();
        let right = match self.parse_expression() {
            Ok(e) => e,
            Err(e) => {
                return Err(e);
            },
        };
        Ok(Expr::BinaryOp { left: Box::new(left), operator, right: Box::new(right), is_not })
    }

    /// `iprint ( args ) ;` or `sprint ( args ) ;`
    fn parse_builtin_function(&mut self) -> (r: Result<Statement, CompileError>)
        requires
            old(self).wf(),
            old(self).ts()[old(self).current as int] == TokenV::IPrint
                || old(self).ts()[old(self).current as int] == TokenV::SPrint,
        ensures
            old(self).kept_in(final(self)),
            old(self).same_counts(final(self)),
            match r {
                Ok(s) => sp_builtin(old(self).ts(), old(self).st()) == Ok::<_, Seq<char>>((s.view(), final(self).st()))
                    && old(self).advanced_to(final(self)),
                Err(e) => fails_with(sp_builtin(old(self).ts(), old(self).st()), e),
            },
    {
        let function_type = match self.peek() {
            Token::IPrint => BuiltinFunctionType::IntegerPrint,
            _ => BuiltinFunctionType::StringPrint,
        };
        self.advance();
        match self.expect(Token::LeftParen) {
            Ok(()) => {},
            Err(e) => {
                return Err(e);
            },
        }
        let arguments = match self.parse_arguments() {
            Ok(a) => a,
            Err(e) => {
                return Err(e);
            },
        };
        match self.expect(Token::RightParen) {
            Ok(()) => {},
            Err(e) => {
                return Err(e);
            },
        }
        match self.expect(Token::Semicolon) {
            Ok(()) => {},
            Err(e) => {
                return Err(e);
            },
        }
        Ok(Statement::BuiltinFunctionCall { function_type, arguments })
    }


    /// A parameter list, possibly empty, up to the closing parenthesis.
    fn parse_parameters(&mut self) -> (r: Result<Vec<Parameter>, CompileError>)
        requires
            old(self).wf(),
        ensures
            old(self).kept_in(final(self)),
            old(self).same_counts(final(self)),
            final(self).current >= old(self).current,
            match r {
                Ok(ps) => sp_params(old(self).ts(), old(self).st()) == Ok::<_, Seq<char>>((params_view(ps@), final(self).st())),
                Err(e) => fails_with(sp_params(old(self).ts(), old(self).st()), e),
            },
    {
        let mut params: Vec<Parameter> = Vec::new();
        match self.peek() {
            Token::RightParen => {
                proof {
                    assert(params_view(params@) =~= seq![]);
                }
                return Ok(params);
            },
            _ => {},
        }
        let ghost ts = self.ts();
        let ghost start = self.st();
        loop
            invariant_except_break
                sp_param_list(ts, start) == prefixed(params_view(params@), sp_param_list(ts, self.st())),
            invariant
                self.tokens@ == old(self).tokens@,
                self.wf(),
                old(self).same_counts(self),
                ts == self.ts(),
                ts == old(self).ts(),
                start == old(self).st(),
                ts[start.pos] != TokenV::RightParen,
                self.current >= start.pos,
                params@.len() > 0 ==> self.current > start.pos,
            ensures
                self.tokens@ == old(self).tokens@,
                self.wf(),
                old(self).same_counts(self),
                self.current >= start.pos,
                sp_param_list(ts, start) == Ok::<_, Seq<char>>((params_view(params@), self.st())),
            decreases self.tokens@.len() - self.current,
        {
            let typ = match self.parse_type() {
                Ok(t) => t,
                Err(e) => {
                    return Err(e);
                },
            };
            let name = match self.parse_identifier() {
                Ok(n) => n,
                Err(e) => {
                    return Err(e);
                },
            };
            let ghost pv = (name@, typ);
            let ghost before = params@;
            params.push(Parameter { name, param_type: typ });
            proof {
                assert(params_view(params@) =~= params_view(before) + seq![pv]);
            }
            match self.peek() {
                Token::Comma => {},
                _ => {
                    break;
                },
            }
            self.advance();
            proof {
                match sp_param_list(ts, self.st()) {
                    Ok((rest, s)) => {
                        assert(params_view(before) + (seq![pv] + rest) =~= params_view(params@) + rest);
                    },
                    Err(_) => {},
                }
            }
        }
        Ok(params)
    }

    /// Statements up to a closing brace or the end marker.
    fn parse_block(&mut self) -> (r: Result<Vec<Statement>, CompileError>)
        requires
            old(self).wf(),
        ensures
            old(self).kept_in(final(self)),
            match r {
                Ok(b) => sp_block(old(self).ts(), old(self).st()) == Ok::<_, Seq<char>>((stmts_view(b@), final(self).st()))
                    && final(self).current >= old(self).current
                    && final(self).budget() >= old(self).budget(),
                Err(e) => fails_with(sp_block(old(self).ts(), old(self).st()), e),
            },
        decreases old(self).tokens@.len() - old(self).current, 4int,
    {
        let ghost ts = self.ts();
        let ghost start = self.st();
        let mut statements: Vec<Statement> = Vec::new();
        while !self.at_block_end()
            invariant
                self.tokens@ == old(self).tokens@,
                self.wf(),
                ts == self.ts(),
                ts == old(self).ts(),
                start == old(self).st(),
                self.current >= start.pos,
                self.budget() >= old(self).budget(),
                sp_block(ts, start) == prefixed(stmts_view(statements@), sp_block(ts, self.st())),
            decreases self.tokens@.len() - self.current,
        {
            let statement = match self.parse_statement() {
                Ok(s) => s,
                Err(e) => {
                    return Err(e);
                },
            };
            let ghost sv = statement.view();
            let ghost before = statements@;
            proof {
                lemma_stmts_view_push(statements@, statement);
            }
            statements.push(statement);
            proof {
                match sp_block(ts, self.st()) {
                    Ok((rest, s)) => {
                        assert(stmts_view(before) + (seq![sv] + rest) =~= stmts_view(statements@) + rest);
                    },
                    Err(_) => {},
                }
            }
        }
        proof {
            assert(stmts_view(statements@) + seq![] =~= stmts_view(statements@));
        }
        Ok(statements)
    }

    /// Whether the cursor is on a closing brace or the end marker.
    fn at_block_end(&self) -> (r: bool)
        requires
            self.wf(),
        ensures
            r == (self.ts()[self.current as int] == TokenV::RightBrace || self.ts()[self.current as int]
                == TokenV::Eof),
    {
        match self.peek() {
            Token::RightBrace | Token::Eof => true,
            _ => false,
        }
    }

    /// `{ block }`, for a construct that started at `from`.
    fn parse_braced(&mut self, Ghost(from): Ghost<PState>) -> (r: Result<Vec<Statement>, CompileError>)
        requires
            old(self).wf(),
            from.pos < old(self).current,
        ensures
            old(self).kept_in(final(self)),
            match r {
                Ok(b) => sp_braced(old(self).ts(), old(self).st(), from) == Ok::<_, Seq<char>>(
                    (stmts_view(b@), final(self).st()),
                ) && final(self).current >= old(self).current && final(self).budget() >= old(
                    self,
                ).budget(),
                Err(e) => fails_with(sp_braced(old(self).ts(), old(self).st(), from), e),
            },
        decreases old(self).tokens@.len() - from.pos, 0int,
    {
        match self.expect(Token::LeftBrace) {
            Ok(()) => {},
            Err(e) => {
                return Err(e);
            },
        }
        let body = match self.parse_block() {
            Ok(b) => b,
            Err(e) => {
                return Err(e);
            },
        };
        match self.expect(Token::RightBrace) {
            Ok(()) => {},
            Err(e) => {
                return Err(e);
            },
        }
        Ok(body)
    }

    /// `while ( cond ) { block }`
    fn parse_while(&mut self) -> (r: Result<Statement, CompileError>)
        requires
            old(self).wf(),
            old(self).ts()[old(self).current as int] == TokenV::While,
        ensures
            old(self).kept_in(final(self)),
            match r {
                Ok(s) => sp_while(old(self).ts(), old(self).st()) == Ok::<_, Seq<char>>((s.view(), final(self).st()))
                    && old(self).advanced_to(final(self)),
                Err(e) => fails_with(sp_while(old(self).ts(), old(self).st()), e),
            },
        decreases old(self).tokens@.len() - old(self).current, 1int,
    {
        let ghost st0 = self.st();
        self.advance();
        match self.expect(Token::LeftParen) {
            Ok(()) => {},
            Err(e) => {
                return Err(e);
            },
        }
        let condition = match self.parse_conditional(false) {
            Ok(c) => c,
            Err(e) => {
                return Err(e);
            },
        };
        match self.expect(Token::RightParen) {
            Ok(()) => {},
            Err(e) => {
                return Err(e);
            },
        }
        let body = match self.parse_braced(Ghost(st0)) {
            Ok(b) => b,
            Err(e) => {
                return Err(e);
            },
        };
        let body_label = make_label("while_", self.num_while, "_body");
        let end_label = make_label("while_", self.num_while, "_end");
        self.num_while = self.num_while + 1;
        Ok(Statement::While { body_label, end_label, condition, body })
    }

    /// `for ( decl cond ; change ) { block }`
    #[verifier::rlimit(40)]
    fn parse_for(&mut self) -> (r: Result<Statement, CompileError>)
        requires
            old(self).wf(),
            old(self).ts()[old(self).current as int] == TokenV::For,
        ensures
            old(self).kept_in(final(self)),
            match r {
                Ok(s) => sp_for(old(self).ts(), old(self).st()) == Ok::<_, Seq<char>>((s.view(), final(self).st()))
                    && old(self).advanced_to(final(self)),
                Err(e) => fails_with(sp_for(old(self).ts(), old(self).st()), e),
            },
        decreases old(self).tokens@.len() - old(self).current, 1int,
    {
        let ghost st0 = self.st();
        self.advance();
        match self.expect(Token::LeftParen) {
            Ok(()) => {},
            Err(e) => {
                return Err(e);
            },
        }
        let init = match self.parse_variable_declaration() {
            Ok(s) => s,
            Err(e) => {
                return Err(e);
            },
        };
        let condition = match self.parse_conditional(false) {
            Ok(c) => c,
            Err(e) => {
                return Err(e);
            },
        };
        match self.expect(Token::Semicolon) {
            Ok(()) => {},
            Err(e) => {
                return Err(e);
            },
        }
        let var_change = match self.parse_expression_statement() {
            Ok(s) => s,
            Err(e) => {
                return Err(e);
            },
        };
        match self.expect(Token::RightParen) {
            Ok(()) => {},
            Err(e) => {
                return Err(e);
            },
        }
        let body = match self.parse_braced(Ghost(st0)) {
            Ok(b) => b,
            Err(e) => {
                return Err(e);
            },
        };
        let body_label = make_label("for_", self.num_for, "_body");
        let end_label = make_label("for_", self.num_for, "_end");
        self.num_for = self.num_for + 1;
        Ok(
            Statement::For {
                init: Box::new(init),
                body_label,
                end_label,
                condition,
                var_change: Box::new(var_change),
                body,
            },
        )
    }

    /// `if ( cond ) { block }`; the condition's sense starts negated.
    fn parse_if(&mut self) -> (r: Result<Statement, CompileError>)
        requires
            old(self).wf(),
            old(self).ts()[old(self).current as int] == TokenV::If,
        ensures
            old(self).kept_in(final(self)),
            match r {
                Ok(s) => sp_if(old(self).ts(), old(self).st()) == Ok::<_, Seq<char>>((s.view(), final(self).st()))
                    && old(self).advanced_to(final(self)),
                Err(e) => fails_with(sp_if(old(self).ts(), old(self).st()), e),
            },
        decreases old(self).tokens@.len() - old(self).current, 1int,
    {
        let ghost st0 = self.st();
        self.advance();
        match self.expect(Token::LeftParen) {
            Ok(()) => {},
            Err(e) => {
                return Err(e);
            },
        }
        let condition = match self.parse_conditional(true) {
            Ok(c) => c,
            Err(e) => {
                return Err(e);
            },
        };
        match self.expect(Token::RightParen) {
            Ok(()) => {},
            Err(e) => {
                return Err(e);
            },
        }
        let body = match self.parse_braced(Ghost(st0)) {
            Ok(b) => b,
            Err(e) => {
                return Err(e);
            },
        };
        let label = make_numbered("if_", self.num_if);
        self.num_if = self.num_if + 1;
        Ok(Statement::If { label, condition, body })
    }

    /// `type name ( params ) { block }`
    fn parse_function(&mut self) -> (r: Result<Statement, CompileError>)
        requires
            old(self).wf(),
        ensures
            old(self).kept_in(final(self)),
            match r {
                Ok(s) => sp_function(old(self).ts(), old(self).st()) == Ok::<_, Seq<char>>((s.view(), final(self).st()))
                    && old(self).advanced_to(final(self)),
                Err(e) => fails_with(sp_function(old(self).ts(), old(self).st()), e),
            },
        decreases old(self).tokens@.len() - old(self).current, 1int,
    {
        let ghost st0 = self.st();
        let return_type = match self.parse_type() {
            Ok(t) => t,
            Err(e) => {
                return Err(e);
            },
        };
        let name = match self.parse_identifier() {
            Ok(n) => n,
            Err(e) => {
                return Err(e);
            },
        };
        match self.expect(Token::LeftParen) {
            Ok(()) => {},
            Err(e) => {
                return Err(e);
            },
        }
        let params = match self.parse_parameters() {
            Ok(p) => p,
            Err(e) => {
                return Err(e);
            },
        };
        match self.expect(Token::RightParen) {
            Ok(()) => {},
            Err(e) => {
                return Err(e);
            },
        }
        let mut body = match self.parse_braced(Ghost(st0)) {
            Ok(b) => b,
            Err(e) => {
                return Err(e);
            },
        };
        let ghost bv = stmts_view(body@);
        let ends_with_return = body.len() > 0 && matches!(body[body.len() - 1], Statement::Return { .. });
        proof {
            lemma_stmts_view_len(body@);
            if body@.len() > 0 {
                assert(bv.last() == body@.last().view());
            }
        }
        if return_type == Type::Void && !ends_with_return {
            proof {
                lemma_stmts_view_push(body@, Statement::Return { value: Expr::Empty });
                reveal_with_fuel(Expr::view, 2);
            }
            body.push(Statement::Return { value: Expr::Empty });
        }
        Ok(Statement::Function { name, params, return_type, body, use_stack: true })
    }

    /// After a type keyword: a function definition when `(` stands two tokens ahead, else a
    /// variable declaration.
    fn parse_decl(&mut self) -> (r: Result<Statement, CompileError>)
        requires
            old(self).wf(),
        ensures
            old(self).kept_in(final(self)),
            match r {
                Ok(s) => sp_decl(old(self).ts(), old(self).st()) == Ok::<_, Seq<char>>((s.view(), final(self).st()))
                    && old(self).advanced_to(final(self)),
                Err(e) => fails_with(sp_decl(old(self).ts(), old(self).st()), e),
            },
        decreases old(self).tokens@.len() - old(self).current, 2int,
    {
        if self.paren_ahead(2) {
            self.parse_function()
        } else {
            self.parse_variable_declaration()
        }
    }

    /// One statement, chosen by the current token and bounded lookahead.
    fn parse_statement(&mut self) -> (r: Result<Statement, CompileError>)
        requires
            old(self).wf(),
        ensures
            old(self).kept_in(final(self)),
            match r {
                Ok(s) => sp_statement(old(self).ts(), old(self).st()) == Ok::<_, Seq<char>>((s.view(), final(self).st()))
                    && old(self).advanced_to(final(self)),
                Err(e) => fails_with(sp_statement(old(self).ts(), old(self).st()), e),
            },
        decreases old(self).tokens@.len() - old(self).current, 3int,
    {
        match self.peek() {
            Token::Return => self.parse_return(),
            Token::If => self.parse_if(),
            Token::While => self.parse_while(),
            Token::For => self.parse_for(),
            Token::IPrint | Token::SPrint => self.parse_builtin_function(),
            Token::Int32 | Token::String | Token::Bool | Token::Void => self.parse_decl(),
            Token::Identifier(name) => {
                let name = name.clone();
                if self.paren_ahead(1) {
                    self.parse_function_call(name)
                } else {
                    self.parse_expression_statement()
                }
            },
            _ => self.parse_expression_statement(),
        }
    }


    /// Parses the whole token sequence into a program whose text segment opens with the entry
    /// function and whose data segment holds each distinct string literal once.
    pub fn parse(&mut self) -> (r: Result<Program, CompileError>)
        requires
            old(self).wf(),
        ensures
            final(self).wf(),
            final(self).ts() == old(self).ts(),
            match r {
                Ok(p) => sp_parse(old(self).ts(), old(self).st()) == Ok::<_, Seq<char>>(p.view()),
                Err(e) => fails_with(sp_parse(old(self).ts(), old(self).st()), e),
            },
    {
        let ghost ts = self.ts();
        let ghost start = self.st();
        let mut text_body: Vec<Statement> = Vec::new();
        text_body.push(start_statement());
        let ghost sv = stmts_view(text_body@);
        proof {
            lemma_stmts_view_push(Seq::<Statement>::empty(), text_body@[0]);
            assert(Seq::<Statement>::empty().push(text_body@[0]) =~= text_body@);
            assert(sv =~= seq![start_function()]);
        }
        while !self.is_at_end()
            invariant
                self.tokens@ == old(self).tokens@,
                self.wf(),
                ts == self.ts(),
                ts == old(self).ts(),
                start == old(self).st(),
                text_body@.len() >= 1,
                stmts_view(text_body@)[0] == start_function(),
                prefixed(seq![start_function()], sp_program(ts, start)) == prefixed(
                    stmts_view(text_body@),
                    sp_program(ts, self.st()),
                ),
            decreases self.tokens@.len() - self.current,
        {
            let statement = match self.parse_statement() {
                Ok(s) => s,
                Err(e) => {
                    return Err(e);
                },
            };
            let ghost sv2 = statement.view();
            let ghost before = text_body@;
            proof {
                lemma_stmts_view_push(text_body@, statement);
                lemma_stmts_view_len(text_body@);
            }
            text_body.push(statement);
            proof {
                lemma_stmts_view_len(text_body@);
                match sp_program(ts, self.st()) {
                    Ok((rest, s)) => {
                        assert(stmts_view(before) + (seq![sv2] + rest) =~= stmts_view(text_body@) + rest);
                    },
                    Err(_) => {},
                }
            }
        }
        proof {
            assert(stmts_view(text_body@) + seq![] =~= stmts_view(text_body@));
            match sp_program(ts, start) {
                Ok((stmts, _)) => {},
                Err(_) => {},
            }
        }
        let data_body = self.populate_data_segment(&text_body);
        Ok(
            Program {
                segments: Segments { data: Segment { body: data_body }, text: Segment { body: text_body } },
            },
        )
    }

    /// The data segment for a text segment: one declaration per distinct string literal of
    /// its function bodies, in the order of first occurrence.
    fn populate_data_segment(&self, text: &[Statement]) -> (r: Vec<Statement>)
        ensures
            stmts_view(r@) == data_segment(first_occurrences(text_strings(stmts_view(text@)))),
    {
        let mut strings: Vec<String> = Vec::new();
        let mut i: usize = 0;
        while i < text.len()
            invariant
                i <= text@.len(),
                strings_view(strings@) == text_strings(stmts_view(text@.subrange(0, i as int))),
            decreases text@.len() - i,
        {
            let ghost before = strings_view(strings@);
            proof {
                let sub = text@.subrange(0, i as int);
                lemma_stmts_view_push(sub, text@[i as int]);
                assert(sub.push(text@[i as int]) =~= text@.subrange(0, i + 1));
                let v = stmts_view(text@.subrange(0, i + 1));
                assert(v.drop_last() =~= stmts_view(sub));
            }
            if let Statement::Function { body, .. } = &text[i] {
                self.collect_string_literals(body.as_slice(), &mut strings);
            } else {
                proof {
                    assert(before + seq![] =~= before);
                }
            }
            i = i + 1;
        }
        proof {
            assert(text@.subrange(0, text@.len() as int) =~= text@);
        }
        let ghost all = strings_view(strings@);
        let mut unique: Vec<String> = Vec::new();
        let mut j: usize = 0;
        while j < strings.len()
            invariant
                j <= strings@.len(),
                all == strings_view(strings@),
                strings_view(unique@) == first_occurrences(all.subrange(0, j as int)),
            decreases strings@.len() - j,
        {
            proof {
                assert(all.subrange(0, j + 1).drop_last() =~= all.subrange(0, j as int));
            }
            if !contains_string(&unique, &strings[j]) {
                let ghost before = unique@;
                unique.push(strings[j].clone());
                proof {
                    assert(strings_view(unique@) =~= strings_view(before).push(all[j as int]));
                }
            }
            j = j + 1;
        }
        proof {
            assert(all.subrange(0, all.len() as int) =~= all);
        }
        let ghost values = strings_view(unique@);
        let mut data: Vec<Statement> = Vec::new();
        let mut k: usize = 0;
        while k < unique.len()
            invariant
                k <= unique@.len(),
                values == strings_view(unique@),
                stmts_view(data@) == data_segment(values).subrange(0, k as int),
            decreases unique@.len() - k,
        {
            let decl = Statement::DataDeclaration {
                label: make_numbered("str_", k),
                storage_type: DataStorageType::Asciiz,
                value: unique[k].clone(),
            };
            proof {
                lemma_stmts_view_push(data@, decl);
            }
            data.push(decl);
            proof {
                assert(stmts_view(data@) =~= data_segment(values).subrange(0, k + 1));
            }
            k = k + 1;
        }
        proof {
            assert(data_segment(values).subrange(0, values.len() as int) =~= data_segment(values));
        }
        data
    }

    /// Appends the string literals of `statements`, nested bodies included, to `strings`.
    fn collect_string_literals(&self, statements: &[Statement], strings: &mut Vec<String>)
        ensures
            strings_view(final(strings)@) == strings_view(old(strings)@) + body_strings(
                stmts_view(statements@),
            ),
        decreases statements@,
    {
        proof {
            reveal_with_fuel(Expr::view, 2);
        }
        let mut i: usize = 0;
        while i < statements.len()
            invariant
                i <= statements@.len(),
                strings_view(strings@) == strings_view(old(strings)@) + body_strings(
                    stmts_view(statements@.subrange(0, i as int)),
                ),
            decreases statements@.len() - i,
        {
            let ghost before = strings_view(strings@);
            let ghost sub = statements@.subrange(0, i as int);
            proof {
                assert(statements@.subrange(0, i + 1).drop_last() =~= sub);
                lemma_stmts_view_push(sub, statements@[i as int]);
                assert(sub.push(statements@[i as int]) =~= statements@.subrange(0, i + 1));
                let v = stmts_view(statements@.subrange(0, i + 1));
                assert(v.drop_last() =~= stmts_view(sub));
            }
            proof {
                reveal_with_fuel(Expr::view, 2);
            }
            match &statements[i] {
                Statement::VariableDeclaration { var_type: Type::String, operation: Expr::BinaryOp { left, .. }, .. } => {
                    if let Expr::StringLiteral(value) = &**left {
                        strings.push(value.clone());
                        proof {
                            assert(strings_view(strings@) =~= before + seq![value@]);
                            assert(stmt_strings(statements@[i as int].view()) == seq![value@]);
                        }
                    } else {
                        proof {
                            assert(before + seq![] =~= before);
                            assert(stmt_strings(statements@[i as int].view()) == Seq::<Seq<char>>::empty());
                        }
                    }
                },
                Statement::BuiltinFunctionCall { arguments, .. } => {
                    collect_literal_arguments(arguments, strings);
                    proof {
                        assert(stmt_strings(statements@[i as int].view()) == literal_strings(args_view(arguments@)));
                    }
                },
                Statement::While { body, .. } | Statement::If { body, .. } | Statement::For { body, .. } => {
                    proof {
                        assert(decreases_to!(statements@ => statements@[i as int]));
                    }
                    self.collect_string_literals(body.as_slice(), strings);
                },
                _ => {
                    proof {
                        assert(before + seq![] =~= before);
                        assert(stmt_strings(statements@[i as int].view()) == Seq::<Seq<char>>::empty());
                    }
                },
            }
            proof {
                assert(before + stmt_strings(statements@[i as int].view()) =~= strings_view(strings@));
            }
            i = i + 1;
        }
        proof {
            assert(statements@.subrange(0, statements@.len() as int) =~= statements@);
        }
    }

    /// One or more expressions separated by commas.
    fn parse_arguments(&mut self) -> (r: Result<Vec<Argument>, CompileError>)
        requires
            old(self).wf(),
        ensures
            old(self).kept_in(final(self)),
            old(self).same_counts(final(self)),
            final(self).current >= old(self).current,
            match r {
                Ok(args) => sp_args(old(self).ts(), old(self).st()) == Ok::<_, Seq<char>>((args_view(args@), final(self).st()))
                    && final(self).current > old(self).current,
                Err(e) => fails_with(sp_args(old(self).ts(), old(self).st()), e),
            },
        decreases old(self).tokens@.len() - old(self).current, 4int,
    {
        let ghost ts = self.ts();
        let ghost start = self.st();
        let mut arguments: Vec<Argument> = Vec::new();
        loop
            invariant_except_break
                sp_args(ts, start) == prefixed(args_view(arguments@), sp_args(ts, self.st())),
            invariant
                self.tokens@ == old(self).tokens@,
                self.wf(),
                old(self).same_counts(self),
                ts == self.ts(),
                ts == old(self).ts(),
                start == old(self).st(),
                self.current >= start.pos,
                arguments@.len() > 0 ==> self.current > start.pos,
            ensures
                self.tokens@ == old(self).tokens@,
                self.wf(),
                old(self).same_counts(self),
                self.current > start.pos,
                sp_args(ts, start) == Ok::<_, Seq<char>>((args_view(arguments@), self.st())),
            decreases self.tokens@.len() - self.current,
        {
            let ghost at = self.st();
            let expr = match self.parse_expression() {
                Ok(e) => e,
                Err(e) => {
                    return Err(e);
                },
            };
            let ghost pre_view = args_view(arguments@);
            let ghost ev = expr.view();
            proof {
                lemma_args_view_push(arguments@, Argument { expr });
            }
            let ghost old_args = arguments@;
            arguments.push(Argument { expr });
            match self.peek() {
                Token::Comma => {},
                _ => {
                    proof {
                        assert(args_view(arguments@) =~= args_view(arguments@.drop_last()) + seq![ev]);
                        assert(sp_args(ts, at) == Ok::<_, Seq<char>>((seq![ev], self.st())));
                        assert(arguments@.drop_last() == old_args);
                        assert(prefixed(pre_view, sp_args(ts, at)) == Ok::<_, Seq<char>>(
                            (pre_view + seq![ev], self.st()),
                        ));
                    }
                    break;
                },
            }
            self.advance();
            proof {
                let pre = args_view(arguments@.drop_last());
                assert(sp_args(ts, at) == prefixed(seq![ev], sp_args(ts, self.st())));
                assert(arguments@.drop_last() == old_args);
                match sp_args(ts, self.st()) {
                    Ok((rest, s)) => {
                        assert(pre + (seq![ev] + rest) =~= args_view(arguments@) + rest);
                    },
                    Err(m) => {
                        assert(prefixed(pre_view, sp_args(ts, at)) == Err::<(Seq<ExprV>, PState), Seq<char>>(m));
                    },
                }
            }
        }
        Ok(arguments)
    }
}

} // verus!
