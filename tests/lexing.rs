use mips_compiler::compiler::Compiler;
use mips_compiler::error::CompileError;
use mips_compiler::lexer::Lexer;
use mips_compiler::text::decimal_string;
use mips_compiler::token::Token;

fn lex(source: &str) -> Result<Vec<Token>, CompileError> {
    Lexer::new(source).tokenize()
}

#[test]
fn tokenize_declaration() {
    let tokens = lex("int32 x = 5;").unwrap();
    assert_eq!(
        tokens,
        vec![
            Token::Int32,
            Token::Identifier("x".to_string()),
            Token::Equal,
            Token::Integer(5),
            Token::Semicolon,
            Token::Eof,
        ]
    );
}

#[test]
fn identifier_or_keyword() {
    assert_eq!(lex("foo_1").unwrap(), vec![Token::Identifier("foo_1".to_string()), Token::Eof]);
    assert_eq!(lex("_").unwrap(), vec![Token::Identifier("_".to_string()), Token::Eof]);
    assert_eq!(lex("whiles").unwrap(), vec![Token::Identifier("whiles".to_string()), Token::Eof]);
    assert_eq!(lex("while").unwrap(), vec![Token::While, Token::Eof]);
    assert_eq!(lex("string").unwrap(), vec![Token::String, Token::Eof]);
    assert_eq!(lex("iprint").unwrap(), vec![Token::IPrint, Token::Eof]);
    assert_eq!(lex("true").unwrap(), vec![Token::BoolLiteral(true), Token::Eof]);
    assert_eq!(lex("false").unwrap(), vec![Token::BoolLiteral(false), Token::Eof]);
}

#[test]
fn operators_and_delimiters() {
    let tokens = lex("= == ! != < <= > >= + - ++ -- ( ) { } , ;").unwrap();
    assert_eq!(
        tokens,
        vec![
            Token::Equal,
            Token::EqualEqual,
            Token::Not,
            Token::NotEqual,
            Token::LessThan,
            Token::LessThanEqual,
            Token::GreaterThan,
            Token::GreaterThanEqual,
            Token::Plus,
            Token::Minus,
            Token::PlusPlus,
            Token::MinusMinus,
            Token::LeftParen,
            Token::RightParen,
            Token::LeftBrace,
            Token::RightBrace,
            Token::Comma,
            Token::Semicolon,
            Token::Eof,
        ]
    );
}

#[test]
fn adjacent_tokens_without_spaces() {
    assert_eq!(
        lex("x++;y<=10").unwrap(),
        vec![
            Token::Identifier("x".to_string()),
            Token::PlusPlus,
            Token::Semicolon,
            Token::Identifier("y".to_string()),
            Token::LessThanEqual,
            Token::Integer(10),
            Token::Eof,
        ]
    );
}

#[test]
fn empty_and_blank_sources_give_only_the_end_marker() {
    assert_eq!(lex("").unwrap(), vec![Token::Eof]);
    assert_eq!(lex(" \t\n  \n").unwrap(), vec![Token::Eof]);
}

#[test]
fn string_literal_token() {
    assert_eq!(
        lex("sprint(\"hi there\");").unwrap(),
        vec![
            Token::SPrint,
            Token::LeftParen,
            Token::StringLiteral("hi there".to_string()),
            Token::RightParen,
            Token::Semicolon,
            Token::Eof,
        ]
    );
}

#[test]
fn largest_integer_fits() {
    assert_eq!(lex("2147483647").unwrap(), vec![Token::Integer(2147483647), Token::Eof]);
    assert_eq!(lex("007").unwrap(), vec![Token::Integer(7), Token::Eof]);
}

#[test]
fn integer_overflow_is_a_lex_error() {
    match lex("x = 2147483648;") {
        Err(CompileError::LexError { line, message }) => {
            assert_eq!(line, 1);
            assert_eq!(message, "Invalid number: 2147483648");
        }
        other => panic!("unexpected {:?}", other),
    }
}

#[test]
fn unexpected_character_reports_its_line() {
    match lex("int32 x;\n\n  x = 1 @ 2;") {
        Err(CompileError::LexError { line, message }) => {
            assert_eq!(line, 3);
            assert_eq!(message, "Unexpected character '@'");
        }
        other => panic!("unexpected {:?}", other),
    }
}

#[test]
fn unterminated_string_is_a_lex_error() {
    match lex("sprint(\"abc\n") {
        Err(CompileError::LexError { line, message }) => {
            assert_eq!(line, 2);
            assert_eq!(message, "Unterminated string literal");
        }
        other => panic!("unexpected {:?}", other),
    }
}

#[test]
fn render_error_with_line() {
    let e = lex("\n\n#").unwrap_err();
    assert_eq!(e.render(), "Lexical error at line 3: Unexpected character '#'");
    let p = CompileError::ParseError { message: "bad".to_string(), line: 0 };
    assert_eq!(p.render(), "Parse error at line 0: bad");
    let u = CompileError::UndefinedVariableError { message: "y".to_string(), line: 12 };
    assert_eq!(u.render(), "Undefined Variable Error at line 12: y");
}

#[test]
fn decimal_rendering() {
    assert_eq!(decimal_string(0), "0");
    assert_eq!(decimal_string(9), "9");
    assert_eq!(decimal_string(1234), "1234");
    assert_eq!(decimal_string(100), "100");
}

#[test]
fn tokenizing_twice_gives_the_same_tokens() {
    let source = "void main() { int32 x = 1; while (x < 5) { x++; } }";
    let mut c = Compiler::new(source);
    let first = c.get_tokens().unwrap();
    let second = c.get_tokens().unwrap();
    assert_eq!(first, second);
    assert_eq!(first, lex(source).unwrap());
}

#[test]
fn token_dump_errors_match_the_lexer() {
    let source = "int32 x\n@";
    let direct = lex(source).unwrap_err();
    assert_eq!(direct, CompileError::LexError { message: "Unexpected character '@'".to_string(), line: 2 });
    assert_eq!(Compiler::new(source).get_tokens().unwrap_err(), direct);
    assert_eq!(Compiler::new(source).compile(true).unwrap_err(), direct);
}
