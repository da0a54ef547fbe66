use vstd::prelude::*;
use vstd::string::StringExecFns;
use crate::error::CompileError;
use crate::text::{chars_of, decimal_value, digit_value, is_digit, string_from_chars};
use crate::token::{Token, TokenV, tokens_view};

verus! {

pub open spec fn is_ident_start(c: char) -> bool {
    ('a' <= c && c <= 'z') || ('A' <= c && c <= 'Z') || c == '_'
}

pub open spec fn is_ident_char(c: char) -> bool {
    is_ident_start(c) || is_digit(c)
}

/// A character that separates tokens and is never itself a token.
pub open spec fn is_blank(c: char) -> bool {
    c == ' ' || c == '\t' || c == '\n'
}

/// How many newlines stand among the first `pos` characters of `s`.
pub open spec fn newlines(s: Seq<char>, pos: int) -> nat
    decreases pos,
{
    if pos <= 0 {
        0
    } else {
        newlines(s, pos - 1) + if s[pos - 1] == '\n' { 1nat } else { 0nat }
    }
}

/// The 1-based line on which position `pos` of `s` lies.
pub open spec fn line_at(s: Seq<char>, pos: int) -> nat {
    1 + newlines(s, pos)
}

/// The first position at or after `pos` that holds no blank.
pub open spec fn skip_blanks(s: Seq<char>, pos: int) -> int
    decreases s.len() - pos,
{
    if 0 <= pos < s.len() && is_blank(s[pos]) {
        skip_blanks(s, pos + 1)
    } else {
        pos
    }
}

/// The end of the run of identifier characters that starts at `pos`.
pub open spec fn ident_end(s: Seq<char>, pos: int) -> int
    decreases s.len() - pos,
{
    if 0 <= pos < s.len() && is_ident_char(s[pos]) {
        ident_end(s, pos + 1)
    } else {
        pos
    }
}

/// The end of the run of decimal digits that starts at `pos`.
pub open spec fn digits_end(s: Seq<char>, pos: int) -> int
    decreases s.len() - pos,
{
    if 0 <= pos < s.len() && is_digit(s[pos]) {
        digits_end(s, pos + 1)
    } else {
        pos
    }
}

/// The position of the first double quote at or after `pos`, or the length of `s`.
pub open spec fn quote_end(s: Seq<char>, pos: int) -> int
    decreases s.len() - pos,
{
    if 0 <= pos < s.len() && s[pos] != '"' {
        quote_end(s, pos + 1)
    } else {
        pos
    }
}

/// The keyword that the word `w` spells, if any.
pub open spec fn keyword_of(w: Seq<char>) -> Option<TokenV> {
    if w == seq!['v', 'o', 'i', 'd'] {
        Some(TokenV::Void)
    } else if w == seq!['i', 'n', 't', '3', '2'] {
        Some(TokenV::Int32)
    } else if w == seq!['b', 'o', 'o', 'l'] {
        Some(TokenV::Bool)
    } else if w == seq!['s', 't', 'r', 'i', 'n', 'g'] {
        Some(TokenV::String)
    } else if w == seq!['i', 'f'] {
        Some(TokenV::If)
    } else if w == seq!['e', 'l', 's', 'e'] {
        Some(TokenV::Else)
    } else if w == seq!['w', 'h', 'i', 'l', 'e'] {
        Some(TokenV::While)
    } else if w == seq!['f', 'o', 'r'] {
        Some(TokenV::For)
    } else if w == seq!['r', 'e', 't', 'u', 'r', 'n'] {
        Some(TokenV::Return)
    } else if w == seq!['i', 'p', 'r', 'i', 'n', 't'] {
        Some(TokenV::IPrint)
    } else if w == seq!['s', 'p', 'r', 'i', 'n', 't'] {
        Some(TokenV::SPrint)
    } else if w == seq!['t', 'r', 'u', 'e'] {
        Some(TokenV::BoolLiteral(true))
    } else if w == seq!['f', 'a', 'l', 's', 'e'] {
        Some(TokenV::BoolLiteral(false))
    } else {
        None
    }
}

/// The token for the word `w`: its keyword, or else an identifier.
pub open spec fn word_token(w: Seq<char>) -> TokenV {
    match keyword_of(w) {
        Some(k) => k,
        None => TokenV::Identifier(w),
    }
}

/// A one-character token, or its two-character form when `second` follows.
pub open spec fn one_or_two(
    s: Seq<char>,
    pos: int,
    second: char,
    short: TokenV,
    long: TokenV,
) -> Result<(TokenV, int), LexFail> {
    if pos + 1 < s.len() && s[pos + 1] == second {
        Ok((long, pos + 2))
    } else {
        Ok((short, pos + 1))
    }
}

/// A lexical failure: the line it happened on and its message.
pub type LexFail = (nat, Seq<char>);

/// The token that starts at `pos` (a position that holds no blank) and the position after it,
/// or the failure.
pub open spec fn token_at(s: Seq<char>, pos: int) -> Result<(TokenV, int), LexFail> {
    let c = s[pos];
    if c == '(' {
        Ok((TokenV::LeftParen, pos + 1))
    } else if c == ')' {
        Ok((TokenV::RightParen, pos + 1))
    } else if c == '{' {
        Ok((TokenV::LeftBrace, pos + 1))
    } else if c == '}' {
        Ok((TokenV::RightBrace, pos + 1))
    } else if c == ',' {
        Ok((TokenV::Comma, pos + 1))
    } else if c == ';' {
        Ok((TokenV::Semicolon, pos + 1))
    } else if c == '=' {
        one_or_two(s, pos, '=', TokenV::Equal, TokenV::EqualEqual)
    } else if c == '!' {
        one_or_two(s, pos, '=', TokenV::Not, TokenV::NotEqual)
    } else if c == '<' {
        one_or_two(s, pos, '=', TokenV::LessThan, TokenV::LessThanEqual)
    } else if c == '>' {
        one_or_two(s, pos, '=', TokenV::GreaterThan, TokenV::GreaterThanEqual)
    } else if c == '+' {
        one_or_two(s, pos, '+', TokenV::Plus, TokenV::PlusPlus)
    } else if c == '-' {
        one_or_two(s, pos, '-', TokenV::Minus, TokenV::MinusMinus)
    } else if is_digit(c) {
        let e = digits_end(s, pos);
        let v = decimal_value(s.subrange(pos, e));
        if v <= i32::MAX {
            Ok((TokenV::Integer(v as i32), e))
        } else {
            Err((line_at(s, e), "Invalid number: "@ + s.subrange(pos, e)))
        }
    } else if is_ident_start(c) {
        let e = ident_end(s, pos + 1);
        Ok((word_token(s.subrange(pos, e)), e))
    } else if c == '"' {
        let e = quote_end(s, pos + 1);
        if e < s.len() {
            Ok((TokenV::StringLiteral(s.subrange(pos + 1, e)), e + 1))
        } else {
            Err((line_at(s, e), "Unterminated string literal"@))
        }
    } else {
        Err((line_at(s, pos), "Unexpected character '"@ + seq![c] + "'"@))
    }
}

pub proof fn lemma_run_ends(s: Seq<char>, pos: int)
    requires
        0 <= pos <= s.len(),
    ensures
        pos <= skip_blanks(s, pos) <= s.len(),
        pos <= ident_end(s, pos) <= s.len(),
        pos <= digits_end(s, pos) <= s.len(),
        pos <= quote_end(s, pos) <= s.len(),
    decreases s.len() - pos,
{
    if pos < s.len() {
        lemma_run_ends(s, pos + 1);
    }
}

pub proof fn lemma_token_advances(s: Seq<char>, pos: int)
    requires
        0 <= pos < s.len(),
    ensures
        token_at(s, pos) matches Ok((_, q)) ==> pos < q <= s.len(),
{
    lemma_run_ends(s, pos);
    lemma_run_ends(s, pos + 1);
}

/// The tokens of `s` from position `pos` on, ended by the end marker, or the first
/// failure.
pub open spec fn lex_from(s: Seq<char>, pos: int) -> Result<Seq<TokenV>, LexFail>
    decreases s.len() - pos,
{
    if pos < 0 || pos > s.len() {
        Err((0, seq![]))
    } else {
        let p = skip_blanks(s, pos);
        proof {
            lemma_run_ends(s, pos);
        }
        if p >= s.len() {
            Ok(seq![TokenV::Eof])
        } else {
            proof {
                lemma_token_advances(s, p);
            }
            match token_at(s, p) {
                Ok((t, q)) => match lex_from(s, q) {
                    Ok(rest) => Ok(seq![t] + rest),
                    Err(line) => Err(line),
                },
                Err(line) => Err(line),
            }
        }
    }
}

/// The tokens of the whole source text `s`, or its first failure.
pub open spec fn lex(s: Seq<char>) -> Result<Seq<TokenV>, LexFail> {
    lex_from(s, 0)
}

/// `x` has the shape of an identifier: a letter or underscore, then letters, digits and
/// underscores.
pub open spec fn is_identifier_text(x: Seq<char>) -> bool {
    &&& x.len() > 0
    &&& is_ident_start(x[0])
    &&& forall|i: int| 1 <= i < x.len() ==> is_ident_char(#[trigger] x[i])
}

proof fn lemma_ident_run_to_end(s: Seq<char>, pos: int)
    requires
        0 <= pos <= s.len(),
        forall|i: int| pos <= i < s.len() ==> is_ident_char(#[trigger] s[i]),
    ensures
        ident_end(s, pos) == s.len(),
    decreases s.len() - pos,
{
    if pos < s.len() {
        lemma_ident_run_to_end(s, pos + 1);
    }
}

/// A text in the shape of an identifier scans as one token, its keyword if it spells one and
/// an identifier of the same text otherwise, followed by the end marker.
pub proof fn lemma_identifier_lexes(x: Seq<char>)
    requires
        is_identifier_text(x),
    ensures
        lex(x) == Ok::<Seq<TokenV>, LexFail>(seq![word_token(x), TokenV::Eof]),
{
    lemma_ident_run_to_end(x, 1);
    assert(x.subrange(0, x.len() as int) =~= x);
    assert(skip_blanks(x, 0) == 0);
    let n = x.len() as int;
    assert(skip_blanks(x, n) == n);
    assert(lex_from(x, n) == Ok::<Seq<TokenV>, LexFail>(seq![TokenV::Eof]));
    assert(token_at(x, 0) == Ok::<(TokenV, int), LexFail>((word_token(x), n)));
    assert(seq![word_token(x)] + seq![TokenV::Eof] =~= seq![word_token(x), TokenV::Eof]);
}

/// A successful scan ends with exactly one end marker, its last token.
pub proof fn lemma_lex_ends_with_eof(s: Seq<char>, pos: int)
    ensures
        lex_from(s, pos) matches Ok(ts) ==> ts.len() > 0 && ts.last() == TokenV::Eof && forall|i: int|
            0 <= i < ts.len() - 1 ==> ts[i] != TokenV::Eof,
    decreases s.len() - pos,
{
    if 0 <= pos <= s.len() {
        let p = skip_blanks(s, pos);
        lemma_run_ends(s, pos);
        if p < s.len() {
            lemma_token_advances(s, p);
            match token_at(s, p) {
                Ok((t, q)) => {
                    lemma_lex_ends_with_eof(s, q);
                    lemma_token_not_eof(s, p);
                    match lex_from(s, q) {
                        Ok(rest) => {
                            let ts = seq![t] + rest;
                            assert forall|i: int| 0 <= i < ts.len() - 1 implies ts[i] != TokenV::Eof by {
                                if i > 0 {
                                    assert(ts[i] == rest[i - 1]);
                                }
                            }
                        },
                        Err(_) => {},
                    }
                },
                Err(_) => {},
            }
        }
    }
}

proof fn lemma_token_not_eof(s: Seq<char>, pos: int)
    requires
        0 <= pos < s.len(),
    ensures
        token_at(s, pos) matches Ok((t, _)) ==> t != TokenV::Eof,
{
    let c = s[pos];
    if is_ident_start(c) && !is_digit(c) {
        let w = s.subrange(pos, ident_end(s, pos + 1));
        assert(word_token(w) != TokenV::Eof);
    }
}

pub proof fn lemma_newlines_bound(s: Seq<char>, pos: int)
    requires
        0 <= pos,
    ensures
        newlines(s, pos) <= pos,
    decreases pos,
{
    if pos > 0 {
        lemma_newlines_bound(s, pos - 1);
    }
}

pub proof fn lemma_skip_blanks_stops(s: Seq<char>, pos: int)
    requires
        0 <= pos <= s.len(),
    ensures
        skip_blanks(s, pos) < s.len() ==> !is_blank(s[skip_blanks(s, pos)]),
    decreases s.len() - pos,
{
    if pos < s.len() && is_blank(s[pos]) {
        lemma_skip_blanks_stops(s, pos + 1);
    }
}

pub proof fn lemma_skip_blanks_fixed(s: Seq<char>, pos: int)
    requires
        0 <= pos <= s.len(),
    ensures
        skip_blanks(s, skip_blanks(s, pos)) == skip_blanks(s, pos),
    decreases s.len() - pos,
{
    if pos < s.len() && is_blank(s[pos]) {
        lemma_skip_blanks_fixed(s, pos + 1);
    }
}

proof fn lemma_decimal_push(ds: Seq<char>, c: char)
    ensures
        decimal_value(ds.push(c)) == decimal_value(ds) * 10 + digit_value(c),
        decimal_value(ds.push(c)) >= decimal_value(ds),
{
    assert(ds.push(c).drop_last() =~= ds);
}

/// A scanner over the characters of a source text.
pub struct Lexer {
    source: Vec<char>,
    line: usize,
    current: usize,
}

impl Lexer {
    pub closed spec fn chars(&self) -> Seq<char> {
        self.source@
    }

    pub closed spec fn position(&self) -> int {
        self.current as int
    }

    /// The cursor lies within the text and `line` is the line that it lies on.
    pub closed spec fn wf(&self) -> bool {
        &&& self.source@.len() < usize::MAX
        &&& self.current <= self.source@.len()
        &&& self.line == line_at(self.source@, self.current as int)
    }

    pub fn new(source: &str) -> (r: Lexer)
        requires
            source@.len() < usize::MAX,
        ensures
            r.wf(),
            r.chars() == source@,
            r.position() == 0,
    {
        Lexer { source: chars_of(source), line: 1, current: 0 }
    }

    /// Scans the remaining text into tokens, ended by exactly one end marker.
    pub fn tokenize(&mut self) -> (r: Result<Vec<Token>, CompileError>)
        requires
            old(self).wf(),
        ensures
            final(self).wf(),
            final(self).chars() == old(self).chars(),
            match r {
                Ok(ts) => lex_from(old(self).chars(), old(self).position()) == Ok::<Seq<TokenV>, LexFail>(
                    tokens_view(ts@),
                ),
                Err(e) => e is LexError && lex_from(old(self).chars(), old(self).position())
                    == Err::<Seq<TokenV>, LexFail>((e.line_of() as nat, e.message_of())),
            },
    {
        let ghost s = self.source@;
        let ghost start = self.current as int;
        let mut tokens: Vec<Token> = Vec::new();
        while !self.is_at_end()
            invariant
                self.wf(),
                self.source@ == s,
                s == old(self).source@,
                start == old(self).current as int,
                lex_from(s, start) == match lex_from(s, self.current as int) {
                    Ok(rest) => Ok::<Seq<TokenV>, LexFail>(tokens_view(tokens@) + rest),
                    Err(line) => Err(line),
                },
            decreases s.len() - self.current,
        {
            let ghost before = self.current as int;
            self.skip_whitespace();
            proof {
                lemma_run_ends(s, before);
                lemma_skip_blanks_fixed(s, before);
                assert(lex_from(s, before) == lex_from(s, self.current as int));
            }
            if !self.is_at_end() {
                proof {
                    lemma_skip_blanks_stops(s, before);
                }
                let ghost at = self.current as int;
                let t = match self.next_token() {
                    Ok(t) => t,
                    Err(e) => {
                        proof {
                            assert(lex_from(s, at) == Err::<Seq<TokenV>, LexFail>((e.line_of() as nat, e.message_of())));
                        }
                        return Err(e);
                    },
                };
                proof {
                    lemma_token_advances(s, at);
                let rest = lex_from(s, self.current as int);
                assert(tokens_view(tokens@.push(t)) =~= tokens_view(tokens@).push(t.view()));
                match rest {
                    Ok(r) => {
                        assert(tokens_view(tokens@) + (seq![t.view()] + r) =~= tokens_view(
                            tokens@.push(t),
                        ) + r);
                    },
                    Err(_) => {},
                }
                }
                tokens.push(t);
            }
        }
        proof {
            assert(lex_from(s, self.current as int) == Ok::<Seq<TokenV>, LexFail>(seq![TokenV::Eof]));
            assert(tokens_view(tokens@.push(Token::Eof)) =~= tokens_view(tokens@) + seq![TokenV::Eof]);
        }
        tokens.push(Token::Eof);
        Ok(tokens)
    }

    /// Scans the token at the cursor, which holds no blank.
    fn next_token(&mut self) -> (r: Result<Token, CompileError>)
        requires
            old(self).wf(),
            old(self).current < old(self).source@.len(),
            !is_blank(old(self).source@[old(self).current as int]),
        ensures
            final(self).wf(),
            final(self).chars() == old(self).chars(),
            match r {
                Ok(t) => token_at(old(self).chars(), old(self).position()) == Ok::<(TokenV, int), LexFail>(
                    (t.view(), final(self).position()),
                ),
                Err(e) => e is LexError && token_at(old(self).chars(), old(self).position())
                    == Err::<(TokenV, int), LexFail>((e.line_of() as nat, e.message_of())),
            },
    {
        let ch = self.peek();
        if ch == '(' {
            self.advance();
            Ok(Token::LeftParen)
        } else if ch == ')' {
            self.advance();
            Ok(Token::RightParen)
        } else if ch == '{' {
            self.advance();
            Ok(Token::LeftBrace)
        } else if ch == '}' {
            self.advance();
            Ok(Token::RightBrace)
        } else if ch == ',' {
            self.advance();
            Ok(Token::Comma)
        } else if ch == ';' {
            self.advance();
            Ok(Token::Semicolon)
        } else if ch == '=' {
            Ok(self.one_or_two('=', Token::Equal, Token::EqualEqual))
        } else if ch == '!' {
            Ok(self.one_or_two('=', Token::Not, Token::NotEqual))
        } else if ch == '<' {
            Ok(self.one_or_two('=', Token::LessThan, Token::LessThanEqual))
        } else if ch == '>' {
            Ok(self.one_or_two('=', Token::GreaterThan, Token::GreaterThanEqual))
        } else if ch == '+' {
            Ok(self.one_or_two('+', Token::Plus, Token::PlusPlus))
        } else if ch == '-' {
            Ok(self.one_or_two('-', Token::Minus, Token::MinusMinus))
        } else if '0' <= ch && ch <= '9' {
            self.scan_number()
        } else if ('a' <= ch && ch <= 'z') || ('A' <= ch && ch <= 'Z') || ch == '_' {
            Ok(self.scan_identifier())
        } else if ch == '"' {
            self.scan_string()
        } else {
            let mut message = String::from_str("Unexpected character '");
            let one = [ch];
            assert(one@ =~= seq![ch]);
            let shown = string_from_chars(&one);
            message.append(shown.as_str());
            message.append("'");
            Err(CompileError::LexError { message, line: self.line })
        }
    }

    /// Consumes the character at the cursor and, when `second` follows it, that one too.
    fn one_or_two(&mut self, second: char, short: Token, long: Token) -> (r: Token)
        requires
            old(self).wf(),
            old(self).current < old(self).source@.len(),
        ensures
            final(self).wf(),
            final(self).chars() == old(self).chars(),
            one_or_two(old(self).chars(), old(self).position(), second, short.view(), long.view())
                == Ok::<(TokenV, int), LexFail>((r.view(), final(self).position())),
    {
        self.advance();
        if !self.is_at_end() && self.peek() == second {
            self.advance();
            long
        } else {
            short
        }
    }

    /// Scans a run of decimal digits into a 32-bit integer token.
    fn scan_number(&mut self) -> (r: Result<Token, CompileError>)
        requires
            old(self).wf(),
            old(self).current < old(self).source@.len(),
            is_digit(old(self).source@[old(self).current as int]),
        ensures
            final(self).wf(),
            final(self).chars() == old(self).chars(),
            ({
                let s = old(self).chars();
                let p = old(self).position();
                let e = digits_end(s, p);
                let v = decimal_value(s.subrange(p, e));
                match r {
                    Ok(t) => v <= i32::MAX && t == Token::Integer(v as i32) && final(self).position() == e,
                    Err(e2) => e2 is LexError && v > i32::MAX && e2.line_of() == line_at(s, e)
                        && e2.message_of() == "Invalid number: "@ + s.subrange(p, e),
                }
            }),
    {
        let ghost s = self.source@;
        let start = self.current;
        let mut value: u64 = 0;
        let mut too_big = false;
        let mut digits: Vec<char> = Vec::new();
        while !self.is_at_end() && '0' <= self.peek() && self.peek() <= '9'
            invariant
                self.wf(),
                self.source@ == s,
                start <= self.current,
                digits_end(s, start as int) == digits_end(s, self.current as int),
                digits@ == s.subrange(start as int, self.current as int),
                !too_big ==> value == decimal_value(digits@) && value <= i32::MAX,
                too_big ==> decimal_value(digits@) > i32::MAX,
            decreases s.len() - self.current,
        {
            let d = self.advance();
            proof {
                lemma_decimal_push(digits@, d);
                assert(s.subrange(start as int, self.current as int) =~= digits@.push(d));
            }
            digits.push(d);
            if !too_big {
                let next = value * 10 + (d as u64 - '0' as u64);
                if next > i32::MAX as u64 {
                    too_big = true;
                } else {
                    value = next;
                }
            }
        }
        if too_big {
            let mut message = String::from_str("Invalid number: ");
            let text = string_from_chars(digits.as_slice());
            message.append(text.as_str());
            Err(CompileError::LexError { message, line: self.line })
        } else {
            Ok(Token::Integer(value as i32))
        }
    }

    /// Scans an identifier or keyword.
    fn scan_identifier(&mut self) -> (r: Token)
        requires
            old(self).wf(),
            old(self).current < old(self).source@.len(),
            is_ident_start(old(self).source@[old(self).current as int]),
        ensures
            final(self).wf(),
            final(self).chars() == old(self).chars(),
            ({
                let s = old(self).chars();
                let p = old(self).position();
                let e = ident_end(s, p + 1);
                r.view() == word_token(s.subrange(p, e)) && final(self).position() == e
            }),
    {
        let ghost s = self.source@;
        let start = self.current;
        let mut word: Vec<char> = Vec::new();
        let c = self.advance();
        word.push(c);
        proof {
            assert(word@ =~= s.subrange(start as int, self.current as int));
        }
        while !self.is_at_end() && is_word_char(self.peek())
            invariant
                self.wf(),
                self.source@ == s,
                start < self.current,
                ident_end(s, start + 1) == ident_end(s, self.current as int),
                word@ == s.subrange(start as int, self.current as int),
            decreases s.len() - self.current,
        {
            let c = self.advance();
            proof {
                assert(s.subrange(start as int, self.current as int) =~= word@.push(c));
            }
            word.push(c);
        }
        match keyword_token(&word) {
            Some(k) => k,
            None => Token::Identifier(string_from_chars(word.as_slice())),
        }
    }

    /// Scans a string literal; its text runs to the next double quote.
    fn scan_string(&mut self) -> (r: Result<Token, CompileError>)
        requires
            old(self).wf(),
            old(self).current < old(self).source@.len(),
            old(self).source@[old(self).current as int] == '"',
        ensures
            final(self).wf(),
            final(self).chars() == old(self).chars(),
            ({
                let s = old(self).chars();
                let p = old(self).position();
                let e = quote_end(s, p + 1);
                match r {
                    Ok(t) => e < s.len() && t.view() == TokenV::StringLiteral(s.subrange(p + 1, e))
                        && final(self).position() == e + 1,
                    Err(e2) => e2 is LexError && e >= s.len() && e2.line_of() == line_at(s, e)
                        && e2.message_of() == "Unterminated string literal"@,
                }
            }),
    {
        let ghost s = self.source@;
        self.advance();
        let start = self.current;
        let mut text: Vec<char> = Vec::new();
        while !self.is_at_end() && self.peek() != '"'
            invariant
                self.wf(),
                self.source@ == s,
                start <= self.current,
                quote_end(s, start as int) == quote_end(s, self.current as int),
                text@ == s.subrange(start as int, self.current as int),
            decreases s.len() - self.current,
        {
            let c = self.advance();
            proof {
                assert(s.subrange(start as int, self.current as int) =~= text@.push(c));
            }
            text.push(c);
        }
        if self.is_at_end() {
            let message = String::from_str("Unterminated string literal");
            Err(CompileError::LexError { message, line: self.line })
        } else {
            self.advance();
            Ok(Token::StringLiteral(string_from_chars(text.as_slice())))
        }
    }

    /// Moves the cursor past blanks, counting newlines.
    fn skip_whitespace(&mut self)
        requires
            old(self).wf(),
        ensures
            final(self).wf(),
            final(self).chars() == old(self).chars(),
            final(self).position() == skip_blanks(old(self).chars(), old(self).position()),
    {
        let ghost s = self.source@;
        let ghost start = self.current as int;
        while !self.is_at_end()
            invariant
                self.wf(),
                self.source@ == s,
                skip_blanks(s, start) == skip_blanks(s, self.current as int),
            ensures
                self.wf(),
                self.source@ == s,
                skip_blanks(s, start) == self.current as int,
            decreases s.len() - self.current,
        {
            let c = self.peek();
            if c == ' ' || c == '\t' || c == '\n' {
                self.advance();
            } else {
                break;
            }
        }
    }

    /// The character at the cursor, or NUL at the end of the text.
    fn peek(&self) -> (c: char)
        requires
            self.wf(),
        ensures
            self.current < self.source@.len() ==> c == self.source@[self.current as int],
    {
        if self.is_at_end() {
            '\0'
        } else {
            self.source[self.current]
        }
    }

    /// Consumes the character at the cursor, counting it when it ends a line.
    fn advance(&mut self) -> (c: char)
        requires
            old(self).wf(),
            old(self).current < old(self).source@.len(),
        ensures
            final(self).wf(),
            final(self).source == old(self).source,
            final(self).current == old(self).current + 1,
            c == old(self).source@[old(self).current as int],
    {
        let c = self.source[self.current];
        proof {
            lemma_newlines_bound(self.source@, self.current as int);
        }
        if c == '\n' {
            self.line = self.line + 1;
        }
        self.current = self.current + 1;
        c
    }

    fn is_at_end(&self) -> (r: bool)
        ensures
            r == (self.current >= self.source@.len()),
    {
        self.current >= self.source.len()
    }
}

fn is_word_char(c: char) -> (r: bool)
    ensures
        r == is_ident_char(c),
{
    ('a' <= c && c <= 'z') || ('A' <= c && c <= 'Z') || c == '_' || ('0' <= c && c <= '9')
}

/// Whether `w` spells exactly the characters of `k`.
fn spells(w: &Vec<char>, k: &[char]) -> (r: bool)
    ensures
        r == (w@ == k@),
{
    if w.len() != k.len() {
        return false;
    }
    let mut i: usize = 0;
    while i < w.len()
        invariant
            w@.len() == k@.len(),
            i <= w@.len(),
            forall|j: int| 0 <= j < i ==> w@[j] == k@[j],
        decreases w@.len() - i,
    {
        if w[i] != k[i] {
            return false;
        }
        i = i + 1;
    }
    assert(w@ =~= k@);
    true
}

/// The keyword token that `w` spells, if any.
fn keyword_token(w: &Vec<char>) -> (r: Option<Token>)
    ensures
        match r {
            Some(t) => keyword_of(w@) == Some(t.view()),
            None => keyword_of(w@) is None,
        },
{
    if spells(w, &['v', 'o', 'i', 'd']) {
        Some(Token::Void)
    } else if spells(w, &['i', 'n', 't', '3', '2']) {
        Some(Token::Int32)
    } else if spells(w, &['b', 'o', 'o', 'l']) {
        Some(Token::Bool)
    } else if spells(w, &['s', 't', 'r', 'i', 'n', 'g']) {
        Some(Token::String)
    } else if spells(w, &['i', 'f']) {
        Some(Token::If)
    } else if spells(w, &['e', 'l', 's', 'e']) {
        Some(Token::Else)
    } else if spells(w, &['w', 'h', 'i', 'l', 'e']) {
        Some(Token::While)
    } else if spells(w, &['f', 'o', 'r']) {
        Some(Token::For)
    } else if spells(w, &['r', 'e', 't', 'u', 'r', 'n']) {
        Some(Token::Return)
    } else if spells(w, &['i', 'p', 'r', 'i', 'n', 't']) {
        Some(Token::IPrint)
    } else if spells(w, &['s', 'p', 'r', 'i', 'n', 't']) {
        Some(Token::SPrint)
    } else if spells(w, &['t', 'r', 'u', 'e']) {
        Some(Token::BoolLiteral(true))
    } else if spells(w, &['f', 'a', 'l', 's', 'e']) {
        Some(Token::BoolLiteral(false))
    } else {
        None
    }
}

} // verus!
