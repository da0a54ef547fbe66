use vstd::prelude::*;
use vstd::string::StringExecFns;
use crate::text::{dec_seq, decimal_string};

verus! {

/// An error reported by one of the compiler's stages.
#[derive(Debug, PartialEq)]
pub enum CompileError {
    LexError { message: String, line: usize },
    ParseError { message: String, line: usize },
    CodeGenError { message: String, line: usize },
    TypeError { message: String, line: usize },
    UndefinedVariableError { message: String, line: usize },
}

/// The category words that open the rendering of each kind of error.
pub open spec fn category_text(e: &CompileError) -> Seq<char> {
    match e {
        CompileError::LexError { .. } => "Lexical error"@,
        CompileError::ParseError { .. } => "Parse error"@,
        CompileError::CodeGenError { .. } => "Code generation error"@,
        CompileError::TypeError { .. } => "Type error"@,
        CompileError::UndefinedVariableError { .. } => "Undefined Variable Error"@,
    }
}

impl CompileError {
    pub open spec fn line_of(&self) -> usize {
        match self {
            CompileError::LexError { line, .. } => *line,
            CompileError::ParseError { line, .. } => *line,
            CompileError::CodeGenError { line, .. } => *line,
            CompileError::TypeError { line, .. } => *line,
            CompileError::UndefinedVariableError { line, .. } => *line,
        }
    }

    pub open spec fn message_of(&self) -> Seq<char> {
        match self {
            CompileError::LexError { message, .. } => message@,
            CompileError::ParseError { message, .. } => message@,
            CompileError::CodeGenError { message, .. } => message@,
            CompileError::TypeError { message, .. } => message@,
            CompileError::UndefinedVariableError { message, .. } => message@,
        }
    }

    /// The human-readable report: `<category> at line <n>: <message>`.
    pub fn render(&self) -> (r: String)
        ensures
            r@ == category_text(self) + " at line "@ + dec_seq(self.line_of() as nat) + ": "@
                + self.message_of(),
    {
        let (mut out, line, message) = match self {
            CompileError::LexError { message, line } => (String::from_str("Lexical error"), *line, message),
            CompileError::ParseError { message, line } => (String::from_str("Parse error"), *line, message),
            CompileError::CodeGenError { message, line } => (String::from_str("Code generation error"), *line, message),
            CompileError::TypeError { message, line } => (String::from_str("Type error"), *line, message),
            CompileError::UndefinedVariableError { message, line } => (String::from_str("Undefined Variable Error"), *line, message),
        };
        out.append(" at line ");
        let digits = decimal_string(line);
        out.append(digits.as_str());
        out.append(": ");
        out.append(message.as_str());
        out
    }
}

} // verus!
