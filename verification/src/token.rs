//! The tokens of the language and the scanner that produces them. The token
//! set is ASCII throughout, so the scanner works on the byte view of its
//! input and speaks of the character view in its contract.

use vstd::prelude::*;

use vstd::string::{is_ascii, StringSliceAdditionalSpecFns};

verus! {

/// The closed set of tokens.
#[derive(Clone, Copy, Debug, PartialEq, Eq, Structural)]
pub enum Token {
    // Keywords
    Let,
    Fn,
    Return,
    If,
    Else,
    While,
    True,
    False,
    Null,
    // Identifier
    Identifier,
    // Literals
    IntegerLiteral,
    StringLiteral,
    // Operators
    Plus,
    Minus,
    Multiply,
    Divide,
    LessThan,
    GreaterThan,
    Equal,
    EqualEqual,
    NotEqual,
    LeftParen,
    RightParen,
    LeftBrace,
    RightBrace,
    Semicolon,
    /// Runs of blanks, tabs and line breaks; skipped by the scanner, never
    /// yielded.
    Whitespace,
}

/// A piece of the input on which no token starts.
#[derive(Clone, Copy, Debug, PartialEq, Eq, Structural)]
pub enum LexicalError {
    InvalidToken,
}

pub open spec fn is_space_char(c: char) -> bool {
    c == ' ' || c == '\t' || c == '\n' || c == '\r'
}

pub open spec fn is_digit_char(c: char) -> bool {
    '0' <= c && c <= '9'
}

pub open spec fn is_ident_start_char(c: char) -> bool {
    ('a' <= c && c <= 'z') || ('A' <= c && c <= 'Z') || c == '_'
}

pub open spec fn is_ident_char(c: char) -> bool {
    is_ident_start_char(c) || is_digit_char(c)
}

/// The keyword a lexeme spells, if any.
pub open spec fn keyword_of(lex: Seq<char>) -> Option<Token> {
    if lex == seq!['l', 'e', 't'] {
        Some(Token::Let)
    } else if lex == seq!['f', 'n'] {
        Some(Token::Fn)
    } else if lex == seq!['r', 'e', 't', 'u', 'r', 'n'] {
        Some(Token::Return)
    } else if lex == seq!['i', 'f'] {
        Some(Token::If)
    } else if lex == seq!['e', 'l', 's', 'e'] {
        Some(Token::Else)
    } else if lex == seq!['w', 'h', 'i', 'l', 'e'] {
        Some(Token::While)
    } else if lex == seq!['t', 'r', 'u', 'e'] {
        Some(Token::True)
    } else if lex == seq!['f', 'a', 'l', 's', 'e'] {
        Some(Token::False)
    } else if lex == seq!['n', 'u', 'l', 'l'] {
        Some(Token::Null)
    } else {
        None
    }
}

/// The tokens spelled as a run of identifier characters: the keywords and
/// plain identifiers. Such a run is scanned to its full extent.
pub open spec fn is_word_token(t: Token) -> bool {
    match t {
        Token::Let | Token::Fn | Token::Return | Token::If | Token::Else | Token::While
            | Token::True | Token::False | Token::Null | Token::Identifier => true,
        _ => false,
    }
}

/// Which lexemes a token stands for.
pub open spec fn token_matches(t: Token, lex: Seq<char>) -> bool {
    match t {
        Token::Let => lex == seq!['l', 'e', 't'],
        Token::Fn => lex == seq!['f', 'n'],
        Token::Return => lex == seq!['r', 'e', 't', 'u', 'r', 'n'],
        Token::If => lex == seq!['i', 'f'],
        Token::Else => lex == seq!['e', 'l', 's', 'e'],
        Token::While => lex == seq!['w', 'h', 'i', 'l', 'e'],
        Token::True => lex == seq!['t', 'r', 'u', 'e'],
        Token::False => lex == seq!['f', 'a', 'l', 's', 'e'],
        Token::Null => lex == seq!['n', 'u', 'l', 'l'],
        Token::Identifier => lex.len() > 0 && is_ident_start_char(lex[0]) && (forall|i: int|
            0 <= i < lex.len() ==> is_ident_char(#[trigger] lex[i])) && keyword_of(lex) is None,
        Token::IntegerLiteral => lex.len() > 0 && (forall|i: int|
            0 <= i < lex.len() ==> is_digit_char(#[trigger] lex[i])),
        Token::StringLiteral => lex.len() >= 2 && lex[0] == '"' && lex[lex.len() - 1] == '"',
        Token::Plus => lex == seq!['+'],
        Token::Minus => lex == seq!['-'],
        Token::Multiply => lex == seq!['*'],
        Token::Divide => lex == seq!['/'],
        Token::LessThan => lex == seq!['<'],
        Token::GreaterThan => lex == seq!['>'],
        Token::Equal => lex == seq!['='],
        Token::EqualEqual => lex == seq!['=', '='],
        Token::NotEqual => lex == seq!['!', '='],
        Token::LeftParen => lex == seq!['('],
        Token::RightParen => lex == seq![')'],
        Token::LeftBrace => lex == seq!['{'],
        Token::RightBrace => lex == seq!['}'],
        Token::Semicolon => lex == seq![';'],
        Token::Whitespace => false,
    }
}

/// For ASCII text the byte view and the character view correspond one to
/// one.
pub proof fn lemma_ascii_view(s: &str)
    requires
        is_ascii(s),
    ensures
        s.spec_bytes().len() == s@.len(),
        forall|i: int|
            0 <= i < s@.len() ==> s.spec_bytes()[i] < 128 && s.spec_bytes()[i] == (
            #[trigger] s@[i]) as u8 && s@[i] == s.spec_bytes()[i] as char,
{
    broadcast use vstd::string::is_ascii_spec_bytes;
    broadcast use vstd::utf8::is_ascii_chars_nat_bound;

    assert(forall|i: int|
        0 <= i < s@.len() ==> s.spec_bytes()[i] < 128 && s.spec_bytes()[i] == (
        #[trigger] s@[i]) as u8 && s@[i] == s.spec_bytes()[i] as char) by {
        assert(forall|i: int| 0 <= i < s@.len() ==> (#[trigger] s@.index(i) as nat) < 128);
    }
}

/// Relies on `str::get`: the substring at a byte range whose ends lie on
/// character boundaries; on ASCII text byte and character positions
/// coincide, so every position in bounds is such a boundary.
#[verifier::external_body]
fn str_slice<'a>(s: &'a str, from: usize, to: usize) -> (r: Option<&'a str>)
    ensures
        (match r {
            Some(sub) => is_ascii(s) && from <= to && to <= s@.len() ==> sub@ == s@.subrange(
                from as int,
                to as int,
            ),
            None => !(is_ascii(s) && from <= to && to <= s@.len()),
        }),
{
    s.get(from..to)
}

fn is_space_b(b: u8) -> (r: bool)
    ensures
        r == is_space_char(b as char),
{
    b == 32 || b == 9 || b == 10 || b == 13
}

fn is_digit_b(b: u8) -> (r: bool)
    ensures
        r == is_digit_char(b as char),
{
    48 <= b && b <= 57
}

fn is_ident_start_b(b: u8) -> (r: bool)
    ensures
        r == is_ident_start_char(b as char),
{
    (97 <= b && b <= 122) || (65 <= b && b <= 90) || b == 95
}

fn is_ident_b(b: u8) -> (r: bool)
    ensures
        r == is_ident_char(b as char),
{
    is_ident_start_b(b) || is_digit_b(b)
}

/// Decides whether the word at `bytes[s0 .. s0 + n]` spells a keyword, and
/// which, or is a plain identifier. `lex` is the same word as characters.
#[verifier::rlimit(60)]
fn classify_word(bytes: &[u8], s0: usize, n: usize, lex: Ghost<Seq<char>>) -> (r: Token)
    requires
        s0 + n <= bytes@.len(),
        n == lex@.len(),
        n > 0,
        forall|k: int|
            0 <= k < n ==> bytes@[s0 + k] == (#[trigger] lex@[k]) as u8 && lex@[k] == bytes@[s0
                + k] as char,
    ensures
        (match keyword_of(lex@) {
            Some(t) => r == t,
            None => r == Token::Identifier,
        }),
{
    if n == 3 && bytes[s0] == 108 && bytes[s0 + 1] == 101 && bytes[s0 + 2] == 116 {
        proof {
            assert(lex@ =~= seq!['l', 'e', 't']);
        }
        Token::Let
    } else if n == 2 && bytes[s0] == 102 && bytes[s0 + 1] == 110 {
        proof {
            assert(lex@ =~= seq!['f', 'n']);
        }
        Token::Fn
    } else if n == 6 && bytes[s0] == 114 && bytes[s0 + 1] == 101 && bytes[s0 + 2] == 116 && bytes[s0
        + 3] == 117 && bytes[s0 + 4] == 114 && bytes[s0 + 5] == 110 {
        proof {
            assert(lex@ =~= seq!['r', 'e', 't', 'u', 'r', 'n']);
        }
        Token::Return
    } else if n == 2 && bytes[s0] == 105 && bytes[s0 + 1] == 102 {
        proof {
            assert(lex@ =~= seq!['i', 'f']);
        }
        Token::If
    } else if n == 4 && bytes[s0] == 101 && bytes[s0 + 1] == 108 && bytes[s0 + 2] == 115 && bytes[s0
        + 3] == 101 {
        proof {
            assert(lex@ =~= seq!['e', 'l', 's', 'e']);
        }
        Token::Else
    } else if n == 5 && bytes[s0] == 119 && bytes[s0 + 1] == 104 && bytes[s0 + 2] == 105 && bytes[s0
        + 3] == 108 && bytes[s0 + 4] == 101 {
        proof {
            assert(lex@ =~= seq!['w', 'h', 'i', 'l', 'e']);
        }
        Token::While
    } else if n == 4 && bytes[s0] == 116 && bytes[s0 + 1] == 114 && bytes[s0 + 2] == 117 && bytes[s0
        + 3] == 101 {
        proof {
            assert(lex@ =~= seq!['t', 'r', 'u', 'e']);
        }
        Token::True
    } else if n == 5 && bytes[s0] == 102 && bytes[s0 + 1] == 97 && bytes[s0 + 2] == 108 && bytes[s0
        + 3] == 115 && bytes[s0 + 4] == 101 {
        proof {
            assert(lex@ =~= seq!['f', 'a', 'l', 's', 'e']);
        }
        Token::False
    } else if n == 4 && bytes[s0] == 110 && bytes[s0 + 1] == 117 && bytes[s0 + 2] == 108 && bytes[s0
        + 3] == 108 {
        proof {
            assert(lex@ =~= seq!['n', 'u', 'l', 'l']);
        }
        Token::Null
    } else {
        proof {
            assert(keyword_of(lex@) is None) by {
                if lex@ == seq!['l', 'e', 't'] {
                    assert(bytes@[s0 as int] == 'l' as u8 && bytes@[s0 + 1] == 'e' as u8 && bytes@[
                        s0 + 2
                    ] == 't' as u8);
                    assert(false);
                }
                if lex@ == seq!['f', 'n'] {
                    assert(bytes@[s0 as int] == 'f' as u8 && bytes@[s0 + 1] == 'n' as u8);
                    assert(false);
                }
                if lex@ == seq!['r', 'e', 't', 'u', 'r', 'n'] {
                    assert(bytes@[s0 as int] == 'r' as u8 && bytes@[s0 + 1] == 'e' as u8 && bytes@[
                        s0 + 2
                    ] == 't' as u8 && bytes@[s0 + 3] == 'u' as u8 && bytes@[s0 + 4] == 'r' as u8
                        && bytes@[s0 + 5] == 'n' as u8);
                    assert(false);
                }
                if lex@ == seq!['i', 'f'] {
                    assert(bytes@[s0 as int] == 'i' as u8 && bytes@[s0 + 1] == 'f' as u8);
                    assert(false);
                }
                if lex@ == seq!['e', 'l', 's', 'e'] {
                    assert(bytes@[s0 as int] == 'e' as u8 && bytes@[s0 + 1] == 'l' as u8 && bytes@[
                        s0 + 2
                    ] == 's' as u8 && bytes@[s0 + 3] == 'e' as u8);
                    assert(false);
                }
                if lex@ == seq!['w', 'h', 'i', 'l', 'e'] {
                    assert(bytes@[s0 as int] == 'w' as u8 && bytes@[s0 + 1] == 'h' as u8 && bytes@[
                        s0 + 2
                    ] == 'i' as u8 && bytes@[s0 + 3] == 'l' as u8 && bytes@[s0 + 4] == 'e' as u8);
                    assert(false);
                }
                if lex@ == seq!['t', 'r', 'u', 'e'] {
                    assert(bytes@[s0 as int] == 't' as u8 && bytes@[s0 + 1] == 'r' as u8 && bytes@[
                        s0 + 2
                    ] == 'u' as u8 && bytes@[s0 + 3] == 'e' as u8);
                    assert(false);
                }
                if lex@ == seq!['f', 'a', 'l', 's', 'e'] {
                    assert(bytes@[s0 as int] == 'f' as u8 && bytes@[s0 + 1] == 'a' as u8 && bytes@[
                        s0 + 2
                    ] == 'l' as u8 && bytes@[s0 + 3] == 's' as u8 && bytes@[s0 + 4] == 'e' as u8);
                    assert(false);
                }
                if lex@ == seq!['n', 'u', 'l', 'l'] {
                    assert(bytes@[s0 as int] == 'n' as u8 && bytes@[s0 + 1] == 'u' as u8 && bytes@[
                        s0 + 2
                    ] == 'l' as u8 && bytes@[s0 + 3] == 'l' as u8);
                    assert(false);
                }
            }
        }
        Token::Identifier
    }
}

/// The scanner over one source text: hands out the tokens in order,
/// skipping whitespace, one token per call of `next`, with `slice` giving
/// the most recent token's text.
pub struct Lexer<'s> {
    text: &'s str,
    pos: usize,
    start: usize,
    end: usize,
}

impl Token {
    /// Opens a scanner over `source`, positioned before its first token.
    /// The language's tokens are ASCII, so the scanner asks for ASCII text.
    pub fn lexer<'s>(source: &'s str) -> (r: Lexer<'s>)
        requires
            is_ascii(source),
        ensures
            r.wf(),
            r.input() == source@,
            r.position() == 0,
    {
        Lexer { text: source, pos: 0, start: 0, end: 0 }
    }
}

impl<'s> Lexer<'s> {
    /// The scanned text, as characters.
    pub closed spec fn input(&self) -> Seq<char> {
        self.text@
    }

    /// How much of the text has been consumed.
    pub closed spec fn position(&self) -> int {
        self.pos as int
    }

    /// The most recent token's extent.
    pub closed spec fn span(&self) -> (int, int) {
        (self.start as int, self.end as int)
    }

    /// The scanner's text is ASCII and its positions lie in bounds.
    pub closed spec fn wf(&self) -> bool {
        &&& is_ascii(self.text)
        &&& self.pos <= self.text@.len()
        &&& self.start <= self.end
        &&& self.end <= self.text@.len()
    }

    /// The offset at which the most recent token begins.
    pub fn token_start(&self) -> (r: usize)
        ensures
            r as int == self.span().0,
    {
        self.start
    }

    /// The text of the most recent token.
    pub fn slice(&self) -> (r: &'s str)
        requires
            self.wf(),
        ensures
            r@ == self.input().subrange(self.span().0, self.span().1),
    {
        match str_slice(self.text, self.start, self.end) {
            Some(sub) => sub,
            None => {
                proof {
                    assert(false);
                }
                ""
            },
        }
    }

    /// Scans the next token: skips whitespace, then yields the token whose
    /// lexeme begins at the first remaining character — or the error for a
    /// character on which no token starts — or nothing at the end of the
    /// text. The yielded token always matches its recorded lexeme.
    pub fn next(&mut self) -> (r: Option<Result<Token, LexicalError>>)
        requires
            old(self).wf(),
        ensures
            final(self).wf(),
            final(self).input() == old(self).input(),
            old(self).position() <= final(self).position(),
            match r {
                None => final(self).position() == final(self).input().len() && final(self).span().0
                    == final(self).span().1 && (forall|j: int|
                    old(self).position() <= j < final(self).input().len() ==> is_space_char(
                        #[trigger] final(self).input()[j],
                    )),
                Some(res) => {
                    &&& old(self).position() <= final(self).span().0
                    &&& final(self).span().0 < final(self).span().1
                    &&& final(self).span().1 == final(self).position()
                    &&& final(self).position() <= final(self).input().len()
                    &&& (forall|j: int|
                        old(self).position() <= j < final(self).span().0 ==> is_space_char(
                            #[trigger] final(self).input()[j],
                        ))
                    &&& (res matches Ok(t) ==> token_matches(
                        t,
                        final(self).input().subrange(final(self).span().0, final(self).span().1),
                    ))
                    &&& (res matches Ok(t) && is_word_token(t) ==> (final(self).span().1
                        == final(self).input().len() || !is_ident_char(
                        final(self).input()[final(self).span().1],
                    )))
                    &&& (res matches Ok(t) && t == Token::IntegerLiteral ==> (final(self).span().1
                        == final(self).input().len() || !is_digit_char(
                        final(self).input()[final(self).span().1],
                    )))
                    &&& (res matches Ok(t) && t == Token::Equal ==> (final(self).span().1
                        == final(self).input().len() || final(self).input()[final(self).span().1]
                        != '='))
                },
            },
    {
        proof {
            lemma_ascii_view(self.text);
        }
        let bytes = self.text.as_bytes();
        let len = bytes.len();
        while self.pos < len && is_space_b(bytes[self.pos])
            invariant
                old(self).pos <= self.pos <= len,
                self.text == old(self).text,
                self.start == old(self).start,
                self.end == old(self).end,
                old(self).wf(),
                bytes@ == self.text.spec_bytes(),
                len == bytes@.len(),
                len == self.text@.len(),
                forall|i: int|
                    0 <= i < self.text@.len() ==> self.text@[i] == self.text.spec_bytes()[i] as char,
                forall|j: int|
                    old(self).pos <= j < self.pos ==> is_space_char(#[trigger] self.text@[j]),
            decreases len - self.pos,
        {
            self.pos = self.pos + 1;
        }
        if self.pos >= len {
            self.start = self.pos;
            self.end = self.pos;
            return None;
        }
        self.start = self.pos;
        let b = bytes[self.pos];
        if is_ident_start_b(b) {
            let mut j = self.pos + 1;
            while j < len && is_ident_b(bytes[j])
                invariant
                    self.pos < j <= len,
                    bytes@ == self.text.spec_bytes(),
                    len == bytes@.len(),
                    len == self.text@.len(),
                    forall|i: int|
                        0 <= i < self.text@.len() ==> self.text@[i] == self.text.spec_bytes()[i]
                            as char,
                    forall|k: int|
                        self.pos <= k < j ==> is_ident_char(#[trigger] self.text@[k]),
                decreases len - j,
            {
                j = j + 1;
            }
            self.end = j;
            self.pos = j;
            let s0 = self.start;
            let n = j - s0;
            let ghost lex = self.text@.subrange(s0 as int, j as int);
            proof {
                assert(forall|k: int|
                    0 <= k < n ==> bytes@[s0 + k] == (#[trigger] lex[k]) as u8 && lex[k] == bytes@[
                        s0 + k
                    ] as char);
            }
            let tok = classify_word(bytes, s0, n, Ghost(lex));
            proof {
                assert(token_matches(tok, lex));
            }
            return Some(Ok(tok));
        }
        if is_digit_b(b) {
            let mut j = self.pos + 1;
            while j < len && is_digit_b(bytes[j])
                invariant
                    self.pos < j <= len,
                    bytes@ == self.text.spec_bytes(),
                    len == bytes@.len(),
                    len == self.text@.len(),
                    forall|i: int|
                        0 <= i < self.text@.len() ==> self.text@[i] == self.text.spec_bytes()[i]
                            as char,
                    forall|k: int|
                        self.pos <= k < j ==> is_digit_char(#[trigger] self.text@[k]),
                decreases len - j,
            {
                j = j + 1;
            }
            self.end = j;
            self.pos = j;
            return Some(Ok(Token::IntegerLiteral));
        }
        if b == 34 {
            let mut j = self.pos + 1;
            while j < len && bytes[j] != 34
                invariant
                    self.pos < j <= len,
                    len == bytes@.len(),
                decreases len - j,
            {
                j = j + 1;
            }
            if j < len {
                self.end = j + 1;
                self.pos = j + 1;
                proof {
                    let lex = self.text@.subrange(self.start as int, self.end as int);
                    assert(lex[0] == '"');
                    assert(lex[lex.len() - 1] == '"');
                }
                return Some(Ok(Token::StringLiteral));
            } else {
                self.end = len;
                self.pos = len;
                return Some(Err(LexicalError::InvalidToken));
            }
        }
        if b == 61 {
            if self.pos + 1 < len && bytes[self.pos + 1] == 61 {
                self.end = self.pos + 2;
                self.pos = self.pos + 2;
                proof {
                    assert(self.text@.subrange(self.start as int, self.end as int) =~= seq![
                        '=',
                        '=',
                    ]);
                }
                return Some(Ok(Token::EqualEqual));
            }
            self.end = self.pos + 1;
            self.pos = self.pos + 1;
            proof {
                assert(self.text@.subrange(self.start as int, self.end as int) =~= seq!['=']);
            }
            return Some(Ok(Token::Equal));
        }
        if b == 33 {
            if self.pos + 1 < len && bytes[self.pos + 1] == 61 {
                self.end = self.pos + 2;
                self.pos = self.pos + 2;
                proof {
                    assert(self.text@.subrange(self.start as int, self.end as int) =~= seq![
                        '!',
                        '=',
                    ]);
                }
                return Some(Ok(Token::NotEqual));
            }
            self.end = self.pos + 1;
            self.pos = self.pos + 1;
            return Some(Err(LexicalError::InvalidToken));
        }
        let single = if b == 43 {
            Some(Token::Plus)
        } else if b == 45 {
            Some(Token::Minus)
        } else if b == 42 {
            Some(Token::Multiply)
        } else if b == 47 {
            Some(Token::Divide)
        } else if b == 60 {
            Some(Token::LessThan)
        } else if b == 62 {
            Some(Token::GreaterThan)
        } else if b == 40 {
            Some(Token::LeftParen)
        } else if b == 41 {
            Some(Token::RightParen)
        } else if b == 123 {
            Some(Token::LeftBrace)
        } else if b == 125 {
            Some(Token::RightBrace)
        } else if b == 59 {
            Some(Token::Semicolon)
        } else {
            None
        };
        self.end = self.pos + 1;
        self.pos = self.pos + 1;
        proof {
            assert(self.text@.subrange(self.start as int, self.end as int) =~= seq![self.text@[self.start as int]]);
        }
        match single {
            Some(t) => Some(Ok(t)),
            None => Some(Err(LexicalError::InvalidToken)),
        }
    }
}

} // verus!
