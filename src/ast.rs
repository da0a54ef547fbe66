use vstd::prelude::*;

verus! {

#[derive(Debug, Clone, Copy, PartialEq, Eq, Structural)]
pub enum Type {
    Void,
    Int32,
    Bool,
    String,
}

#[derive(Debug, Clone, Copy, PartialEq, Eq, Structural)]
pub enum DataStorageType {
    Asciiz,
}

#[derive(Debug, Clone, Copy, PartialEq, Eq, Structural)]
pub enum BuiltinFunctionType {
    IntegerPrint,
    StringPrint,
}

#[derive(Debug, Clone, Copy, PartialEq, Eq, Structural)]
pub enum BinaryOperator {
    LessThan,
    GreaterThan,
    LessEqual,
    GreaterEqual,
    Equal,
    NotEqual,
    Add,
    Subtract,
    Empty,
}

/// An expression; each composite owns its sub-expressions.
#[derive(Debug, PartialEq)]
pub enum Expr {
    Integer(i32),
    Identifier(String),
    StringLiteral(String),
    BoolLiteral(bool),
    Empty,
    BinaryOp { left: Box<Expr>, operator: BinaryOperator, right: Box<Expr>, is_not: bool },
    FunctionCall { function_name: String, arguments: Vec<Argument> },
}

#[derive(Debug)]
pub struct Segment {
    pub body: Vec<Statement>,
}

#[derive(Debug)]
pub struct Segments {
    pub data: Segment,
    pub text: Segment,
}

#[derive(Debug, PartialEq)]
pub struct Parameter {
    pub name: String,
    pub param_type: Type,
}

#[derive(Debug, PartialEq)]
pub struct Argument {
    pub expr: Expr,
}

#[allow(inconsistent_fields)]
#[derive(Debug, PartialEq)]
pub enum Statement {
    DataDeclaration { label: String, storage_type: DataStorageType, value: String },
    Instruction { opcode: String, operands: Vec<String> },
    VariableDeclaration { var_type: Type, identifier: String, operation: Expr },
    VariableAssignment { identifier: String, operation: Expr },
    Function {
        name: String,
        params: Vec<Parameter>,
        return_type: Type,
        body: Vec<Statement>,
        use_stack: bool,
    },
    FunctionCall { function_name: String, arguments: Vec<Argument> },
    BuiltinFunctionCall { function_type: BuiltinFunctionType, arguments: Vec<Argument> },
    While { body_label: String, end_label: String, condition: Expr, body: Vec<Statement> },
    For {
        init: Box<Statement>,
        body_label: String,
        end_label: String,
        condition: Expr,
        var_change: Box<Statement>,
        body: Vec<Statement>,
    },
    If { label: String, condition: Expr, body: Vec<Statement> },
    Return { value: Expr },
    ExprStatement(Expr),
}

#[derive(Debug)]
pub struct Program {
    pub segments: Segments,
}

/// The value of an expression, with text as character sequences.
pub enum ExprV {
    Integer(i32),
    Identifier(Seq<char>),
    StringLiteral(Seq<char>),
    BoolLiteral(bool),
    Empty,
    BinaryOp { left: Box<ExprV>, operator: BinaryOperator, right: Box<ExprV>, is_not: bool },
    FunctionCall { function_name: Seq<char>, arguments: Seq<ExprV> },
}

/// The value of a statement, with text as character sequences.
#[allow(inconsistent_fields)]
pub enum StatementV {
    DataDeclaration { label: Seq<char>, storage_type: DataStorageType, value: Seq<char> },
    Instruction { opcode: Seq<char>, operands: Seq<Seq<char>> },
    VariableDeclaration { var_type: Type, identifier: Seq<char>, operation: ExprV },
    VariableAssignment { identifier: Seq<char>, operation: ExprV },
    Function {
        name: Seq<char>,
        params: Seq<(Seq<char>, Type)>,
        return_type: Type,
        body: Seq<StatementV>,
        use_stack: bool,
    },
    FunctionCall { function_name: Seq<char>, arguments: Seq<ExprV> },
    BuiltinFunctionCall { function_type: BuiltinFunctionType, arguments: Seq<ExprV> },
    While { body_label: Seq<char>, end_label: Seq<char>, condition: ExprV, body: Seq<StatementV> },
    For {
        init: Box<StatementV>,
        body_label: Seq<char>,
        end_label: Seq<char>,
        condition: ExprV,
        var_change: Box<StatementV>,
        body: Seq<StatementV>,
    },
    If { label: Seq<char>, condition: ExprV, body: Seq<StatementV> },
    Return { value: ExprV },
    ExprStatement(ExprV),
}

/// The value of a program: its data segment and its text segment.
pub struct ProgramV {
    pub data: Seq<StatementV>,
    pub text: Seq<StatementV>,
}

impl Expr {
    pub open spec fn view(&self) -> ExprV
        decreases self,
    {
        match self {
            Expr::Integer(n) => ExprV::Integer(*n),
            Expr::Identifier(s) => ExprV::Identifier(s@),
            Expr::StringLiteral(s) => ExprV::StringLiteral(s@),
            Expr::BoolLiteral(b) => ExprV::BoolLiteral(*b),
            Expr::Empty => ExprV::Empty,
            Expr::BinaryOp { left, operator, right, is_not } => ExprV::BinaryOp {
                left: Box::new(left.view()),
                operator: *operator,
                right: Box::new(right.view()),
                is_not: *is_not,
            },
            Expr::FunctionCall { function_name, arguments } => {
                proof {
                    broadcast use vstd::std_specs::vec::axiom_vec_decreases_to_view;
                }
                ExprV::FunctionCall {
                    function_name: function_name@,
                    arguments: args_view(arguments@),
                }
            },
        }
    }
}

/// The values of a list of call arguments.
pub open spec fn args_view(args: Seq<Argument>) -> Seq<ExprV>
    decreases args,
{
    if args.len() == 0 {
        seq![]
    } else {
        args_view(args.drop_last()).push(args.last().expr.view())
    }
}

pub open spec fn params_view(ps: Seq<Parameter>) -> Seq<(Seq<char>, Type)> {
    ps.map_values(|p: Parameter| (p.name@, p.param_type))
}

pub open spec fn strings_view(ss: Seq<String>) -> Seq<Seq<char>> {
    ss.map_values(|s: String| s@)
}

impl Statement {
    pub open spec fn view(&self) -> StatementV
        decreases self,
    {
        proof {
            broadcast use vstd::std_specs::vec::axiom_vec_decreases_to_view;
        }
        match self {
            Statement::DataDeclaration { label, storage_type, value } => StatementV::DataDeclaration {
                label: label@,
                storage_type: *storage_type,
                value: value@,
            },
            Statement::Instruction { opcode, operands } => StatementV::Instruction {
                opcode: opcode@,
                operands: strings_view(operands@),
            },
            Statement::VariableDeclaration { var_type, identifier, operation } => StatementV::VariableDeclaration {
                var_type: *var_type,
                identifier: identifier@,
                operation: operation.view(),
            },
            Statement::VariableAssignment { identifier, operation } => StatementV::VariableAssignment {
                identifier: identifier@,
                operation: operation.view(),
            },
            Statement::Function { name, params, return_type, body, use_stack } => StatementV::Function {
                name: name@,
                params: params_view(params@),
                return_type: *return_type,
                body: stmts_view(body@),
                use_stack: *use_stack,
            },
            Statement::FunctionCall { function_name, arguments } => StatementV::FunctionCall {
                function_name: function_name@,
                arguments: args_view(arguments@),
            },
            Statement::BuiltinFunctionCall { function_type, arguments } => StatementV::BuiltinFunctionCall {
                function_type: *function_type,
                arguments: args_view(arguments@),
            },
            Statement::While { body_label, end_label, condition, body } => StatementV::While {
                body_label: body_label@,
                end_label: end_label@,
                condition: condition.view(),
                body: stmts_view(body@),
            },
            Statement::For { init, body_label, end_label, condition, var_change, body } => StatementV::For {
                init: Box::new(init.view()),
                body_label: body_label@,
                end_label: end_label@,
                condition: condition.view(),
                var_change: Box::new(var_change.view()),
                body: stmts_view(body@),
            },
            Statement::If { label, condition, body } => StatementV::If {
                label: label@,
                condition: condition.view(),
                body: stmts_view(body@),
            },
            Statement::Return { value } => StatementV::Return { value: value.view() },
            Statement::ExprStatement(e) => StatementV::ExprStatement(e.view()),
        }
    }
}

/// The values of a list of statements.
pub open spec fn stmts_view(ss: Seq<Statement>) -> Seq<StatementV>
    decreases ss,
{
    if ss.len() == 0 {
        seq![]
    } else {
        stmts_view(ss.drop_last()).push(ss.last().view())
    }
}

impl Program {
    pub open spec fn view(&self) -> ProgramV {
        ProgramV {
            data: stmts_view(self.segments.data.body@),
            text: stmts_view(self.segments.text.body@),
        }
    }
}

pub proof fn lemma_args_view_push(args: Seq<Argument>, a: Argument)
    ensures
        args_view(args.push(a)) == args_view(args).push(a.expr.view()),
{
    assert(args.push(a).drop_last() =~= args);
}

pub proof fn lemma_stmts_view_push(ss: Seq<Statement>, s: Statement)
    ensures
        stmts_view(ss.push(s)) == stmts_view(ss).push(s.view()),
{
    assert(ss.push(s).drop_last() =~= ss);
}

pub proof fn lemma_args_view_len(args: Seq<Argument>)
    ensures
        args_view(args).len() == args.len(),
        forall|i: int| 0 <= i < args.len() ==> #[trigger] args_view(args)[i] == args[i].expr.view(),
    decreases args.len(),
{
    if args.len() > 0 {
        lemma_args_view_len(args.drop_last());
    }
}

pub proof fn lemma_stmts_view_len(ss: Seq<Statement>)
    ensures
        stmts_view(ss).len() == ss.len(),
        forall|i: int| 0 <= i < ss.len() ==> #[trigger] stmts_view(ss)[i] == ss[i].view(),
    decreases ss.len(),
{
    if ss.len() > 0 {
        lemma_stmts_view_len(ss.drop_last());
    }
}

} // verus!
