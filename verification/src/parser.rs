//! The parser: turns source text into a `Program` by recursive descent over
//! the scanner's tokens. The grammar is
//!
//! ```text
//! program   := statement*
//! statement := "var" identifier "=" expression ";"
//!            | "print" expression ";"
//! expression := term  (("+" | "-") term)*
//! term       := factor (("*" | "/") factor)*
//! factor     := integer | identifier | "(" expression ")"
//! ```
//!
//! with `*` and `/` binding tighter than `+` and `-`, and all operators
//! grouping to the left.

use vstd::prelude::*;

use vstd::string::{is_ascii, StringSliceAdditionalSpecFns};

use crate::ast::{Expression, Operator, PrintStatement, Program, Statement, VarStatement};
use crate::token::Token;

verus! {

/// The parse failed: at byte `position` of the source, `expected` describes
/// what the grammar asked for and did not find.
#[derive(Clone, Debug, PartialEq)]
pub struct ParseError {
    pub position: usize,
    pub expected: String,
}

/// One scanned token with its text and its starting offset.
struct Tok {
    token: Token,
    text: String,
    offset: usize,
}

/// The numeric value a digit string spells.
pub open spec fn int_of_digits(s: Seq<char>) -> int
    decreases s.len(),
{
    if s.len() == 0 {
        0
    } else {
        10 * int_of_digits(s.drop_last()) + (s.last() as int - '0' as int)
    }
}

/// Reads a digit string as a 64-bit integer; nothing when a character is no
/// digit or the value does not fit.
fn parse_i64(text: &str) -> (r: Option<i64>)
    ensures
        r matches Some(v) ==> v == int_of_digits(text@),
{
    if text.is_empty() || !text.is_ascii() {
        return None;
    }
    proof {
        crate::token::lemma_ascii_view(text);
        assert(text@.take(0) =~= Seq::<char>::empty());
    }
    let bytes = text.as_bytes();
    let len = bytes.len();
    let mut value: i64 = 0;
    let mut i: usize = 0;
    while i < len
        invariant
            i <= len,
            is_ascii(text),
            bytes@ == text.spec_bytes(),
            len == bytes@.len(),
            len == text@.len(),
            forall|k: int|
                0 <= k < text@.len() ==> text.spec_bytes()[k] < 128 && text@[k]
                    == text.spec_bytes()[k] as char && text.spec_bytes()[k] == (
                #[trigger] text@[k]) as u8,
            0 <= value,
            value == int_of_digits(text@.take(i as int)),
        decreases len - i,
    {
        let b = bytes[i];
        if b < 48 || 57 < b {
            return None;
        }
        let d = (b - 48) as i64;
        if value > (i64::MAX - d) / 10 {
            return None;
        }
        value = value * 10 + d;
        proof {
            assert(text@.take(i as int + 1).drop_last() =~= text@.take(i as int));
            assert(text@.take(i as int + 1).last() == text@[i as int]);
        }
        i = i + 1;
    }
    proof {
        assert(text@.take(len as int) =~= text@);
    }
    Some(value)
}

struct Parser {
    toks: Vec<Tok>,
    i: usize,
    limit: usize,
}

impl Parser {
    spec fn wf(&self) -> bool {
        &&& self.i <= self.toks@.len()
        &&& forall|k: int| 0 <= k < self.toks@.len() ==> #[trigger] self.toks@[k].offset
            <= self.limit
    }

    /// The offset to blame in an error: the next token's, or one past the
    /// scanned text at its end.
    fn here(&self) -> (r: usize)
        requires
            self.wf(),
        ensures
            r <= self.limit,
    {
        if self.i < self.toks.len() {
            self.toks[self.i].offset
        } else {
            self.limit
        }
    }

    fn fail(&self, expected: &str) -> (r: ParseError)
        requires
            self.wf(),
        ensures
            r.position <= self.limit,
    {
        ParseError { position: self.here(), expected: expected.to_owned() }
    }

    /// True when the next token is the identifier spelled `word`.
    fn at_word(&self, word: &str) -> (r: bool)
        requires
            self.wf(),
        ensures
            r ==> self.i < self.toks@.len(),
    {
        self.i < self.toks.len() && self.toks[self.i].token == Token::Identifier
            && self.toks[self.i].text == word.to_owned()
    }

    fn eat(&mut self, t: Token, expected: &str) -> (r: Result<(), ParseError>)
        requires
            old(self).wf(),
        ensures
            final(self).wf(),
            final(self).toks == old(self).toks,
            final(self).limit == old(self).limit,
            old(self).i <= final(self).i,
            r is Ok ==> final(self).i == old(self).i + 1,
            r matches Err(e) ==> final(self).i == old(self).i && e.position <= old(self).limit,
    {
        if self.i < self.toks.len() && self.toks[self.i].token == t {
            self.i = self.i + 1;
            Ok(())
        } else {
            Err(self.fail(expected))
        }
    }

    fn parse_factor(&mut self) -> (r: Result<Expression, ParseError>)
        requires
            old(self).wf(),
        ensures
            final(self).wf(),
            final(self).toks == old(self).toks,
            final(self).limit == old(self).limit,
            old(self).i <= final(self).i,
            r matches Err(e) ==> e.position <= old(self).limit,
            r is Ok ==> old(self).i < final(self).i,
        decreases old(self).toks@.len() - old(self).i, 0int,
    {
        if self.i >= self.toks.len() {
            return Err(self.fail("an expression"));
        }
        let t = self.toks[self.i].token;
        if t == Token::IntegerLiteral {
            match parse_i64(self.toks[self.i].text.as_str()) {
                Some(n) => {
                    self.i = self.i + 1;
                    Ok(Expression::Integer(n))
                },
                None => Err(self.fail("an integer that fits in 64 bits")),
            }
        } else if t == Token::Identifier {
            let name = self.toks[self.i].text.clone();
            self.i = self.i + 1;
            Ok(Expression::Variable(name))
        } else if t == Token::LeftParen {
            self.i = self.i + 1;
            let inner = match self.parse_expression() {
                Ok(e) => e,
                Err(err) => {
                    return Err(err);
                },
            };
            match self.eat(Token::RightParen, "\")\"") {
                Ok(_) => Ok(inner),
                Err(err) => Err(err),
            }
        } else {
            Err(self.fail("an expression"))
        }
    }

    fn parse_term(&mut self) -> (r: Result<Expression, ParseError>)
        requires
            old(self).wf(),
        ensures
            final(self).wf(),
            final(self).toks == old(self).toks,
            final(self).limit == old(self).limit,
            old(self).i <= final(self).i,
            r matches Err(e) ==> e.position <= old(self).limit,
            r is Ok ==> old(self).i < final(self).i,
        decreases old(self).toks@.len() - old(self).i, 1int,
    {
        let mut acc = match self.parse_factor() {
            Ok(e) => e,
            Err(err) => {
                return Err(err);
            },
        };
        while self.i < self.toks.len() && (self.toks[self.i].token == Token::Multiply
            || self.toks[self.i].token == Token::Divide)
            invariant
                self.wf(),
                self.toks == old(self).toks,
                self.limit == old(self).limit,
                old(self).i < self.i,
            decreases self.toks@.len() - self.i,
        {
            let operator = if self.toks[self.i].token == Token::Multiply {
                Operator::Mul
            } else {
                Operator::Div
            };
            self.i = self.i + 1;
            let rhs = match self.parse_factor() {
                Ok(e) => e,
                Err(err) => {
                    return Err(err);
                },
            };
            acc = Expression::BinaryOperation {
                lhs: Box::new(acc),
                operator,
                rhs: Box::new(rhs),
            };
        }
        Ok(acc)
    }

    fn parse_expression(&mut self) -> (r: Result<Expression, ParseError>)
        requires
            old(self).wf(),
        ensures
            final(self).wf(),
            final(self).toks == old(self).toks,
            final(self).limit == old(self).limit,
            old(self).i <= final(self).i,
            r matches Err(e) ==> e.position <= old(self).limit,
            r is Ok ==> old(self).i < final(self).i,
        decreases old(self).toks@.len() - old(self).i, 2int,
    {
        let mut acc = match self.parse_term() {
            Ok(e) => e,
            Err(err) => {
                return Err(err);
            },
        };
        while self.i < self.toks.len() && (self.toks[self.i].token == Token::Plus
            || self.toks[self.i].token == Token::Minus)
            invariant
                self.wf(),
                self.toks == old(self).toks,
                self.limit == old(self).limit,
                old(self).i < self.i,
            decreases self.toks@.len() - self.i,
        {
            let operator = if self.toks[self.i].token == Token::Plus {
                Operator::Add
            } else {
                Operator::Sub
            };
            self.i = self.i + 1;
            let rhs = match self.parse_term() {
                Ok(e) => e,
                Err(err) => {
                    return Err(err);
                },
            };
            acc = Expression::BinaryOperation {
                lhs: Box::new(acc),
                operator,
                rhs: Box::new(rhs),
            };
        }
        Ok(acc)
    }

    fn parse_statement(&mut self) -> (r: Result<Statement, ParseError>)
        requires
            old(self).wf(),
        ensures
            final(self).wf(),
            final(self).toks == old(self).toks,
            final(self).limit == old(self).limit,
            old(self).i <= final(self).i,
            r matches Err(e) ==> e.position <= old(self).limit,
            r is Ok ==> old(self).i < final(self).i,
    {
        if self.at_word("var") {
            let n = self.toks.len();
            assert(self.i < n);
            self.i = self.i + 1;
            if !(self.i < self.toks.len() && self.toks[self.i].token == Token::Identifier) {
                return Err(self.fail("a variable name"));
            }
            let name = self.toks[self.i].text.clone();
            self.i = self.i + 1;
            match self.eat(Token::Equal, "\"=\"") {
                Ok(_) => {},
                Err(err) => {
                    return Err(err);
                },
            }
            let value = match self.parse_expression() {
                Ok(e) => e,
                Err(err) => {
                    return Err(err);
                },
            };
            match self.eat(Token::Semicolon, "\";\"") {
                Ok(_) => {},
                Err(err) => {
                    return Err(err);
                },
            }
            Ok(Statement::Variable(VarStatement { name, value: Box::new(value) }))
        } else if self.at_word("print") {
            let n = self.toks.len();
            assert(self.i < n);
            self.i = self.i + 1;
            let value = match self.parse_expression() {
                Ok(e) => e,
                Err(err) => {
                    return Err(err);
                },
            };
            match self.eat(Token::Semicolon, "\";\"") {
                Ok(_) => {},
                Err(err) => {
                    return Err(err);
                },
            }
            Ok(Statement::Print(PrintStatement { value: Box::new(value) }))
        } else {
            Err(self.fail("\"var\" or \"print\""))
        }
    }
}

/// Parses a whole source text into a `Program`: a sequence of `var` and
/// `print` statements. On failure the error names the position of the
/// offending piece of text, which always lies within the source, and what
/// the grammar expected there.
pub fn parse(source: &str) -> (r: Result<Program, ParseError>)
    ensures
        r matches Err(e) ==> e.position <= source@.len(),
{
    if !source.is_ascii() {
        return Err(ParseError { position: 0, expected: "ASCII source text".to_owned() });
    }
    proof {
        crate::token::lemma_ascii_view(source);
    }
    let limit = source.as_bytes().len();
    let mut lexer = Token::lexer(source);
    proof {
        assert(limit == source@.len());
    }
    let mut toks: Vec<Tok> = Vec::new();
    let ghost input = source@;
    let mut fin = false;
    while !fin
        invariant
            input == source@,
            lexer.wf(),
            lexer.input() == input,
            limit == input.len(),
            0 <= lexer.position() <= input.len(),
            forall|k: int| 0 <= k < toks@.len() ==> #[trigger] toks@[k].offset <= limit,
        decreases (input.len() - lexer.position()) + (if fin { 0int } else { 1int }),
    {
        match lexer.next() {
            None => {
                fin = true;
            },
            Some(Ok(t)) => {
                let text = lexer.slice().to_owned();
                let offset = lexer.token_start();
                toks.push(Tok { token: t, text, offset });
            },
            Some(Err(_)) => {
                return Err(
                    ParseError { position: lexer.token_start(), expected: "a token".to_owned() },
                );
            },
        }
    }
    let mut parser = Parser { toks, i: 0, limit };
    let mut statements: Vec<Statement> = Vec::new();
    while parser.i < parser.toks.len()
        invariant
            input == source@,
            parser.wf(),
            parser.limit == limit,
            limit == input.len(),
        decreases parser.toks@.len() - parser.i,
    {
        match parser.parse_statement() {
            Ok(s) => statements.push(s),
            Err(err) => {
                return Err(err);
            },
        }
    }
    Ok(Program(statements))
}

} // verus!
