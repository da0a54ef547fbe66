use vstd::prelude::*;
use vstd::string::StringExecFns;
use crate::ast::Program;
use crate::error::CompileError;
use crate::grammar::{parse_tokens, tokens_wf};
use crate::lexer::{Lexer, lemma_lex_ends_with_eof, lex};
use crate::mips::{MipsGenerator, program_code, render, texts};
use crate::parser::{Parser, parse_failure};
use crate::token::{Token, tokens_view};

verus! {

/// The front end is a function of its input alone: a text scans to the same tokens however
/// often it is scanned, a successful scan ends with the end marker (so its tokens can be
/// parsed), and token sequences with the same values parse, from a fresh parser, to the same
/// program.
pub proof fn lemma_front_end_is_pure(a: Seq<char>, b: Seq<char>, t1: Seq<Token>, t2: Seq<Token>)
    requires
        a == b,
        tokens_view(t1) == tokens_view(t2),
    ensures
        lex(a) == lex(b),
        lex(a) matches Ok(ts) ==> tokens_wf(ts),
        parse_tokens(tokens_view(t1)) == parse_tokens(tokens_view(t2)),
{
    lemma_lex_ends_with_eof(a, 0);
}

/// The front end of the compiler over one source text.
pub struct Compiler {
    source: String,
}

impl Compiler {
    /// The source text.
    pub closed spec fn text(&self) -> Seq<char> {
        self.source@
    }

    pub fn new(source: &str) -> (r: Compiler)
        ensures
            r.text() == source@,
    {
        Compiler { source: String::from_str(source) }
    }

    /// The tokens of the source text, or the lexical error at its first bad token.
    pub fn get_tokens(&mut self) -> (r: Result<Vec<Token>, CompileError>)
        requires
            old(self).text().len() < usize::MAX,
        ensures
            final(self).text() == old(self).text(),
            match lex(old(self).text()) {
                Ok(ts) => r matches Ok(tokens) && tokens_view(tokens@) == ts,
                Err((line, message)) => r matches Err(e) && e is LexError && e.line_of() == line
                    && e.message_of() == message,
            },
    {
        let mut l = Lexer::new(self.source.as_str());
        l.tokenize()
    }

    /// The program that the source text parses to, or the first lexical or parse error.
    pub fn get_ast(&mut self) -> (r: Result<Program, CompileError>)
        requires
            old(self).text().len() < usize::MAX,
        ensures
            final(self).text() == old(self).text(),
            match lex(old(self).text()) {
                Ok(ts) => match parse_tokens(ts) {
                    Ok(p) => r matches Ok(program) && program.view() == p,
                    Err(message) => r matches Err(e) && parse_failure(e) && e.message_of() == message,
                },
                Err((line, message)) => r matches Err(e) && e is LexError && e.line_of() == line
                    && e.message_of() == message,
            },
    {
        let tokens = match self.get_tokens() {
            Ok(t) => t,
            Err(e) => {
                return Err(e);
            },
        };
        proof {
            lemma_lex_ends_with_eof(self.source@, 0);
        }
        let mut p = Parser::new(tokens);
        p.parse()
    }

    /// The MIPS assembly for the source text, or the first lexical, parse or code generation
    /// error; with `emit_comments` each statement's code is preceded by a comment line.
    pub fn compile(&mut self, emit_comments: bool) -> (r: Result<String, CompileError>)
        requires
            old(self).text().len() < usize::MAX,
        ensures
            final(self).text() == old(self).text(),
            match lex(old(self).text()) {
                Ok(ts) => match parse_tokens(ts) {
                    Ok(p) => match program_code(p.data, p.text, emit_comments) {
                        Some(lines) => r matches Ok(assembly) && assembly@ == render(texts(lines)),
                        None => r is Err,
                    },
                    Err(message) => r matches Err(e) && parse_failure(e) && e.message_of() == message,
                },
                Err((line, message)) => r matches Err(e) && e is LexError && e.line_of() == line
                    && e.message_of() == message,
            },
    {
        let program = match self.get_ast() {
            Ok(p) => p,
            Err(e) => {
                return Err(e);
            },
        };
        let mut generator = MipsGenerator::new(program, emit_comments);
        generator.generate()
    }
}

} // verus!
