//! The lexer: a stateful, single-pass scanner over the source bytes with one
//! character of lookahead. `spec_next_token` is the mathematical description
//! of one scanning step; every method is proved against it.
use vstd::prelude::*;

use crate::token::{Keyword, SpecToken, Operation, Token, TokenError};

verus! {

use vstd::string::StringExecFns;
use vstd::string::StrSliceExecFns;

/// Blank bytes skipped before every token: space, tab, newline, carriage return.
pub open spec fn is_ws(b: u8) -> bool {
    b == 32 || b == 9 || b == 10 || b == 13
}

/// Bytes that may begin an identifier: ASCII letters and the underscore.
pub open spec fn is_letter(b: u8) -> bool {
    (97 <= b && b <= 122) || (65 <= b && b <= 90) || b == 95
}

/// ASCII decimal digits.
pub open spec fn is_digit(b: u8) -> bool {
    48 <= b && b <= 57
}

/// Bytes that may continue an identifier: letters, digits and the underscore.
pub open spec fn is_ident_char(b: u8) -> bool {
    is_letter(b) || is_digit(b)
}

/// The first position at or after `pos` holding a byte that is not whitespace
/// (or the end of the input).
pub open spec fn skip_ws(input: Seq<u8>, pos: int) -> int
    decreases input.len() - pos,
{
    if 0 <= pos && pos < input.len() && is_ws(input[pos]) {
        skip_ws(input, pos + 1)
    } else {
        pos
    }
}

/// The end of the maximal run of identifier characters starting at `pos`.
pub open spec fn ident_end(input: Seq<u8>, pos: int) -> int
    decreases input.len() - pos,
{
    if 0 <= pos && pos < input.len() && is_ident_char(input[pos]) {
        ident_end(input, pos + 1)
    } else {
        pos
    }
}

/// The end of the maximal run of decimal digits starting at `pos`.
pub open spec fn digits_end(input: Seq<u8>, pos: int) -> int
    decreases input.len() - pos,
{
    if 0 <= pos && pos < input.len() && is_digit(input[pos]) {
        digits_end(input, pos + 1)
    } else {
        pos
    }
}

/// The bytes of an ASCII text read as characters.
pub open spec fn chars_of(bs: Seq<u8>) -> Seq<char> {
    Seq::new(bs.len(), |i: int| bs[i] as char)
}

/// Keyword recognition: an exact match of the whole identifier text against
/// one of the seven reserved words.
pub open spec fn spec_keyword(text: Seq<char>) -> Option<Keyword> {
    if text == "let"@ {
        Some(Keyword::Let)
    } else if text == "fn"@ {
        Some(Keyword::Function)
    } else if text == "return"@ {
        Some(Keyword::Return)
    } else if text == "if"@ {
        Some(Keyword::If)
    } else if text == "else"@ {
        Some(Keyword::Else)
    } else if text == "true"@ {
        Some(Keyword::True)
    } else if text == "false"@ {
        Some(Keyword::False)
    } else {
        None
    }
}

/// What one scanning step yields: the classified token (or the offending
/// byte) and the position the scanner stands on afterwards.
pub ghost struct LexOutcome {
    pub token: Result<SpecToken, u8>,
    pub next: int,
}

/// One step of the lexer from position `pos`: skip whitespace, then classify
/// the current byte, consuming a second byte only for `==` and `!=`.
pub open spec fn spec_next_token(input: Seq<u8>, pos: int) -> LexOutcome {
    let p = skip_ws(input, pos);
    if !(0 <= p && p < input.len()) {
        LexOutcome { token: Ok(SpecToken::Eof), next: p }
    } else {
        let b = input[p];
        if b == 62 {
            LexOutcome { token: Ok(SpecToken::Gt), next: p + 1 }
        } else if b == 60 {
            LexOutcome { token: Ok(SpecToken::Lt), next: p + 1 }
        } else if b == 44 {
            LexOutcome { token: Ok(SpecToken::Comma), next: p + 1 }
        } else if b == 59 {
            LexOutcome { token: Ok(SpecToken::Semicolon), next: p + 1 }
        } else if b == 40 {
            LexOutcome { token: Ok(SpecToken::Lparen), next: p + 1 }
        } else if b == 41 {
            LexOutcome { token: Ok(SpecToken::Rparen), next: p + 1 }
        } else if b == 123 {
            LexOutcome { token: Ok(SpecToken::Lbrace), next: p + 1 }
        } else if b == 125 {
            LexOutcome { token: Ok(SpecToken::Rbrace), next: p + 1 }
        } else if b == 61 {
            if p + 1 < input.len() && input[p + 1] == 61 {
                LexOutcome { token: Ok(SpecToken::Eq), next: p + 2 }
            } else {
                LexOutcome { token: Ok(SpecToken::Assign), next: p + 1 }
            }
        } else if b == 33 {
            if p + 1 < input.len() && input[p + 1] == 61 {
                LexOutcome { token: Ok(SpecToken::Neq), next: p + 2 }
            } else {
                LexOutcome { token: Ok(SpecToken::Bang), next: p + 1 }
            }
        } else if b == 43 {
            LexOutcome { token: Ok(SpecToken::Op(Operation::Plus)), next: p + 1 }
        } else if b == 45 {
            LexOutcome { token: Ok(SpecToken::Op(Operation::Minus)), next: p + 1 }
        } else if b == 42 {
            LexOutcome { token: Ok(SpecToken::Op(Operation::Asterisk)), next: p + 1 }
        } else if b == 47 {
            LexOutcome { token: Ok(SpecToken::Op(Operation::Slash)), next: p + 1 }
        } else if is_letter(b) {
            let e = ident_end(input, p);
            let text = chars_of(input.subrange(p, e));
            match spec_keyword(text) {
                Some(k) => LexOutcome { token: Ok(SpecToken::Kw(k)), next: e },
                None => LexOutcome { token: Ok(SpecToken::Ident(text)), next: e },
            }
        } else if is_digit(b) {
            let e = digits_end(input, p);
            LexOutcome { token: Ok(SpecToken::Int(chars_of(input.subrange(p, e)))), next: e }
        } else {
            LexOutcome { token: Err(b), next: p + 1 }
        }
    }
}

/// Relies on `String::push`: appends exactly the given character.
pub assume_specification[ String::push ](s: &mut String, c: char)
    ensures
        final(s)@ == old(s)@.push(c),
;

/// The scanner's cursor over the input bytes. `position` is the index of the
/// current character, `read_position` the index of the lookahead character,
/// and `ch` the current character itself (0 once the end is reached).
pub struct Lexer {
    pub input: Vec<u8>,
    pub position: usize,
    pub read_position: usize,
    pub ch: u8,
}

impl Lexer {
    /// Well-formedness: the cursor stands inside the input (or just past it),
    /// the lookahead index follows it, and `ch` caches the current byte.
    pub open spec fn wf(self) -> bool {
        &&& self.position <= self.input@.len()
        &&& self.read_position == if self.position < self.input@.len() {
            self.position + 1
        } else {
            self.position as int
        }
        &&& self.ch == if self.position < self.input@.len() {
            self.input@[self.position as int]
        } else {
            0u8
        }
    }

    /// A fresh lexer over the UTF-8 bytes of `input`, standing on the first byte.
    pub fn new(input: String) -> (l: Lexer)
        ensures
            l.wf(),
            l.position == 0,
            l.input@ == vstd::utf8::encode_utf8(input@),
    {
        let bytes: Vec<u8> = input.as_str().as_bytes_vec();
        let mut lexer = Lexer { input: bytes, position: 0, read_position: 0, ch: 0 };
        lexer.read_char();
        lexer
    }

    /// Advance the cursor by one byte; at the end of the input it stays put
    /// and `ch` holds the 0 sentinel.
    pub fn read_char(&mut self)
        requires
            old(self).read_position <= old(self).input@.len(),
    ensures
            final(self).wf(),
            final(self).input == old(self).input,
            final(self).position == old(self).read_position,
    {
        self.position = self.read_position;
        if self.read_position < self.input.len() {
            self.ch = self.input[self.read_position];
            self.read_position = self.read_position + 1;
        } else {
            self.ch = 0;
        }
    }

    /// The lookahead byte, if any.
    pub fn peek_char(&self) -> (r: Option<&u8>)
        ensures
            match r {
                Some(b) => self.read_position < self.input@.len() && *b == self.input@[self.read_position as int],
                None => self.read_position >= self.input@.len(),
            },
    {
        if self.read_position < self.input.len() {
            Some(&self.input[self.read_position])
        } else {
            None
        }
    }

    /// Move the cursor to the first byte that is not whitespace.
    pub fn skip_whitespace(&mut self)
        requires
            old(self).wf(),
        ensures
            final(self).wf(),
            final(self).input == old(self).input,
            final(self).position as int == skip_ws(old(self).input@, old(self).position as int),
    {
        let ghost orig_pos = self.position as int;
        while self.ch == 32 || self.ch == 9 || self.ch == 10 || self.ch == 13
            invariant
                self.wf(),
                self.input == old(self).input,
                skip_ws(self.input@, orig_pos) == skip_ws(self.input@, self.position as int),
            decreases self.input@.len() - self.position,
        {
            self.read_char();
        }
    }

    /// Read the maximal run of identifier characters under the cursor into a
    /// fresh string.
    pub fn read_identifier(&mut self) -> (s: String)
        requires
            old(self).wf(),
        ensures
            final(self).wf(),
            final(self).input == old(self).input,
            final(self).position as int == ident_end(old(self).input@, old(self).position as int),
            s@ == chars_of(
                old(self).input@.subrange(old(self).position as int, final(self).position as int),
            ),
    {
        let ghost start = self.position as int;
        let mut s = String::new();
        while (97 <= self.ch && self.ch <= 122) || (65 <= self.ch && self.ch <= 90) || self.ch
            == 95 || (48 <= self.ch && self.ch <= 57)
            invariant
                self.wf(),
                self.input == old(self).input,
                0 <= start <= self.position as int,
                ident_end(self.input@, start) == ident_end(self.input@, self.position as int),
                s@ == chars_of(self.input@.subrange(start, self.position as int)),
            decreases self.input@.len() - self.position,
        {
            let c = self.ch;
            s.push(c as char);
            proof {
                assert(s@ =~= chars_of(
                    self.input@.subrange(start, self.position as int + 1),
                ));
            }
            self.read_char();
        }
        s
    }

    /// Read the maximal run of decimal digits under the cursor into a fresh
    /// string.
    pub fn read_numbers(&mut self) -> (s: String)
        requires
            old(self).wf(),
        ensures
            final(self).wf(),
            final(self).input == old(self).input,
            final(self).position as int == digits_end(old(self).input@, old(self).position as int),
            s@ == chars_of(
                old(self).input@.subrange(old(self).position as int, final(self).position as int),
            ),
    {
        let ghost start = self.position as int;
        let mut s = String::new();
        while 48 <= self.ch && self.ch <= 57
            invariant
                self.wf(),
                self.input == old(self).input,
                0 <= start <= self.position as int,
                digits_end(self.input@, start) == digits_end(self.input@, self.position as int),
                s@ == chars_of(self.input@.subrange(start, self.position as int)),
            decreases self.input@.len() - self.position,
        {
            let c = self.ch;
            s.push(c as char);
            proof {
                assert(s@ =~= chars_of(
                    self.input@.subrange(start, self.position as int + 1),
                ));
            }
            self.read_char();
        }
        s
    }

    /// Classify the identifier text that was just read: a reserved word
    /// becomes its keyword token, anything else an identifier token.
    fn ident_token(s: String) -> (t: Token)
        ensures
            t@ == match spec_keyword(s@) {
                Some(k) => SpecToken::Kw(k),
                None => SpecToken::Ident(s@),
            },
    {
        if s == String::from_str("let") {
            Token::Kw(Keyword::Let)
        } else if s == String::from_str("fn") {
            Token::Kw(Keyword::Function)
        } else if s == String::from_str("return") {
            Token::Kw(Keyword::Return)
        } else if s == String::from_str("if") {
            Token::Kw(Keyword::If)
        } else if s == String::from_str("else") {
            Token::Kw(Keyword::Else)
        } else if s == String::from_str("true") {
            Token::Kw(Keyword::True)
        } else if s == String::from_str("false") {
            Token::Kw(Keyword::False)
        } else {
            Token::Ident(s)
        }
    }

    /// Scan one token, exactly as `spec_next_token` describes: the token (or
    /// the offending byte) of `spec_next_token` at the old position, with the
    /// cursor left on its `next` position. At the end of the input it yields
    /// the end-of-input token again and again without moving.
    pub fn next_token(&mut self) -> (r: Result<Token, TokenError>)
        requires
            old(self).wf(),
        ensures
            final(self).wf(),
            final(self).input == old(self).input,
            final(self).position as int == spec_next_token(
                old(self).input@,
                old(self).position as int,
            ).next,
            match r {
                Ok(t) => spec_next_token(old(self).input@, old(self).position as int).token
                    == Ok::<SpecToken, u8>(t@),
                Err(e) => spec_next_token(old(self).input@, old(self).position as int).token
                    == Err::<SpecToken, u8>(e->Illegal_0),
            },
    {
        self.skip_whitespace();

        if self.position >= self.input.len() {
            return Ok(Token::Eof);
        }
        let b = self.ch;
        let tok = if b == 62 {
            Token::Gt
        } else if b == 60 {
            Token::Lt
        } else if b == 44 {
            Token::Comma
        } else if b == 59 {
            Token::Semicolon
        } else if b == 40 {
            Token::Lparen
        } else if b == 41 {
            Token::Rparen
        } else if b == 123 {
            Token::Lbrace
        } else if b == 125 {
            Token::Rbrace
        } else if b == 61 {
            let two = match self.peek_char() {
                Some(c) => *c == 61,
                None => false,
            };
            if two {
                self.read_char();
                Token::Eq
            } else {
                Token::Assign
            }
        } else if b == 33 {
            let two = match self.peek_char() {
                Some(c) => *c == 61,
                None => false,
            };
            if two {
                self.read_char();
                Token::Neq
            } else {
                Token::Bang
            }
        } else if b == 43 {
            Token::Op(Operation::Plus)
        } else if b == 45 {
            Token::Op(Operation::Minus)
        } else if b == 42 {
            Token::Op(Operation::Asterisk)
        } else if b == 47 {
            Token::Op(Operation::Slash)
        } else if (97 <= b && b <= 122) || (65 <= b && b <= 90) || b == 95 {
            let s = self.read_identifier();
            return Ok(Self::ident_token(s));
        } else if 48 <= b && b <= 57 {
            let s = self.read_numbers();
            return Ok(Token::Int(s));
        } else {
            self.read_char();
            return Err(TokenError::Illegal(b));
        };
        self.read_char();
        Ok(tok)
    }
}


/// A forward-only view of a lexer as a finite token stream: every token up to
/// and including the end-of-input token, then nothing.
pub struct TokenIterator {
    pub lexer: Lexer,
    pub is_eof: bool,
}

impl Lexer {
    /// Wrap this lexer as a token stream, consuming it.
    pub fn into_iter(self) -> (it: TokenIterator)
        ensures
            it.lexer == self,
            it.is_eof == false,
    {
        TokenIterator { lexer: self, is_eof: false }
    }
}

impl TokenIterator {
    /// Pull the next token: the one `spec_next_token` yields at the current
    /// position. After the end-of-input token, and after a lexing error, the
    /// stream yields nothing.
    pub fn next(&mut self) -> (r: Option<Token>)
        requires
            old(self).lexer.wf(),
        ensures
            final(self).lexer.wf(),
            final(self).lexer.input == old(self).lexer.input,
            old(self).is_eof ==> r is None && *final(self) == *old(self),
            !old(self).is_eof ==> {
                let o = spec_next_token(old(self).lexer.input@, old(self).lexer.position as int);
                &&& final(self).lexer.position as int == o.next
                &&& match r {
                    Some(t) => o.token == Ok::<SpecToken, u8>(t@) && final(self).is_eof == (
                    t@ is Eof),
                    None => o.token is Err && final(self).is_eof,
                }
            },
    {
        if self.is_eof {
            return None;
        }
        match self.lexer.next_token() {
            Ok(t) => {
                if matches!(t, Token::Eof) {
                    self.is_eof = true;
                }
                Some(t)
            },
            Err(_) => {
                self.is_eof = true;
                None
            },
        }
    }
}

/// `toks` is the trace the lexer is specified to yield from `pos`: each entry
/// is the token `spec_next_token` gives at the running position, no entry is
/// preceded by a lexing error, and the trace ends at the first end-of-input
/// token.
pub open spec fn is_lex_trace(input: Seq<u8>, pos: int, toks: Seq<SpecToken>) -> bool
    decreases toks.len(),
{
    let o = spec_next_token(input, pos);
    match o.token {
        Ok(t) => toks.len() > 0 && toks[0] == t && (if t is Eof {
            toks.len() == 1
        } else {
            is_lex_trace(input, o.next, toks.drop_first())
        }),
        Err(_) => false,
    }
}

/// Lexing is deterministic: a given source has at most one token trace, so
/// scanning the same input again yields the identical sequence of tokens.
pub proof fn lemma_lex_deterministic(input: Seq<u8>, pos: int, t1: Seq<SpecToken>, t2: Seq<SpecToken>)
    requires
        is_lex_trace(input, pos, t1),
        is_lex_trace(input, pos, t2),
    ensures
        t1 == t2,
    decreases t1.len(),
{
    let o = spec_next_token(input, pos);
    if !(o.token->Ok_0 is Eof) {
        lemma_lex_deterministic(input, o.next, t1.drop_first(), t2.drop_first());
        assert forall|i: int| 0 <= i < t1.len() implies t1[i] == t2[i] by {
            if i > 0 {
                assert(t1[i] == t1.drop_first()[i - 1]);
                assert(t2[i] == t2.drop_first()[i - 1]);
            }
        }
    }
    assert(t1 =~= t2);
}

/// The two-character operators exist exactly when the second byte is present
/// and is `=`: a `=` or `!` combines with a following `=` into one token, and
/// otherwise stands alone as assignment or negation.
pub proof fn lemma_two_char_operators(input: Seq<u8>, pos: int)
    ensures
        ({
            let p = skip_ws(input, pos);
            let o = spec_next_token(input, pos);
            &&& (0 <= p < input.len() && input[p] == 61 ==> (if p + 1 < input.len() && input[p
                + 1] == 61 {
                o.token == Ok::<SpecToken, u8>(SpecToken::Eq) && o.next == p + 2
            } else {
                o.token == Ok::<SpecToken, u8>(SpecToken::Assign) && o.next == p + 1
            }))
            &&& (0 <= p < input.len() && input[p] == 33 ==> (if p + 1 < input.len() && input[p
                + 1] == 61 {
                o.token == Ok::<SpecToken, u8>(SpecToken::Neq) && o.next == p + 2
            } else {
                o.token == Ok::<SpecToken, u8>(SpecToken::Bang) && o.next == p + 1
            }))
        }),
{
}

/// Keyword recognition is an exact match on the whole identifier text: a
/// scanned word is a keyword token exactly when its text is one of the seven
/// reserved words, and an identifier token carrying the text otherwise.
pub proof fn lemma_keyword_exact_match(input: Seq<u8>, pos: int)
    ensures
        ({
            let p = skip_ws(input, pos);
            let e = ident_end(input, p);
            let text = chars_of(input.subrange(p, e));
            let o = spec_next_token(input, pos);
            0 <= p < input.len() && is_letter(input[p]) ==> {
                &&& o.next == e
                &&& o.token == Ok::<SpecToken, u8>(
                    match spec_keyword(text) {
                        Some(k) => SpecToken::Kw(k),
                        None => SpecToken::Ident(text),
                    },
                )
                &&& (spec_keyword(text) is Some <==> (text == "let"@ || text == "fn"@ || text
                    == "return"@ || text == "if"@ || text == "else"@ || text == "true"@ || text
                    == "false"@))
            }
        }),
{
}


/// Skipping whitespace never moves backwards nor past the end of the input,
/// and stops on a byte that is not whitespace.
pub proof fn lemma_skip_ws_bounds(input: Seq<u8>, pos: int)
    requires
        0 <= pos <= input.len(),
    ensures
        pos <= skip_ws(input, pos) <= input.len(),
        skip_ws(input, pos) < input.len() ==> !is_ws(input[skip_ws(input, pos)]),
    decreases input.len() - pos,
{
    if pos < input.len() && is_ws(input[pos]) {
        lemma_skip_ws_bounds(input, pos + 1);
    }
}

/// The end of an identifier run lies between its start and the end of the
/// input.
pub proof fn lemma_ident_end_bounds(input: Seq<u8>, pos: int)
    requires
        0 <= pos <= input.len(),
    ensures
        pos <= ident_end(input, pos) <= input.len(),
    decreases input.len() - pos,
{
    if pos < input.len() && is_ident_char(input[pos]) {
        lemma_ident_end_bounds(input, pos + 1);
    }
}

/// The end of a digit run lies between its start and the end of the input.
pub proof fn lemma_digits_end_bounds(input: Seq<u8>, pos: int)
    requires
        0 <= pos <= input.len(),
    ensures
        pos <= digits_end(input, pos) <= input.len(),
    decreases input.len() - pos,
{
    if pos < input.len() && is_digit(input[pos]) {
        lemma_digits_end_bounds(input, pos + 1);
    }
}

/// Every byte of a digit run is a digit.
pub proof fn lemma_digits_end_run(input: Seq<u8>, pos: int)
    requires
        0 <= pos <= input.len(),
    ensures
        forall|j: int| pos <= j < digits_end(input, pos) ==> is_digit(input[j]),
    decreases input.len() - pos,
{
    if pos < input.len() && is_digit(input[pos]) {
        lemma_digits_end_run(input, pos + 1);
    }
}

/// One scanning step never moves backwards nor past the end of the input; it
/// stands still only when it yields the end-of-input token, which appears
/// exactly at the end of the input.
pub broadcast proof fn lemma_next_token_bounds(input: Seq<u8>, pos: int)
    requires
        0 <= pos <= input.len(),
    ensures
        pos <= (#[trigger] spec_next_token(input, pos)).next <= input.len(),
        spec_next_token(input, pos).token == Ok::<SpecToken, u8>(SpecToken::Eof)
            ==> spec_next_token(input, pos).next == input.len(),
        spec_next_token(input, pos).token != Ok::<SpecToken, u8>(SpecToken::Eof) ==> pos
            < spec_next_token(input, pos).next,
{
    lemma_skip_ws_bounds(input, pos);
    let p = skip_ws(input, pos);
    if p < input.len() {
        if is_letter(input[p]) {
            lemma_ident_end_bounds(input, p + 1);
        }
        if is_digit(input[p]) {
            lemma_digits_end_bounds(input, p + 1);
        }
    }
}

} // verus!
