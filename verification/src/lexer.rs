//! The scanner: one forward pass over the bytes of the source text that
//! yields the tokens in order, or the first lexical error.

use vstd::prelude::*;
use vstd::string::*;
use vstd::utf8::*;

use crate::error::{Error, ErrorView};
use crate::span::Span;
use crate::text::{
    lemma_boundary_around_ascii, lemma_newlines_add, lemma_text_is_utf8, line_after, newlines_between,
    text_between, NEWLINE,
};

verus! {

/// The kinds of tokens. The scanner yields neither `Eof` nor `Newline`;
/// the parser sees `Eof` past the last token, and skips `Newline` tokens
/// that stand before a command.
#[derive(Copy, Clone, PartialEq, Eq, Structural, Debug)]
pub enum TokenKind {
    Ident,
    String,
    Int,
    Colon,
    Hashtag,
    Comma,
    Dollar,
    Eof,
    Newline,
}

impl TokenKind {
    /// The name of the kind as it appears in messages.
    pub open spec fn spec_name(self) -> Seq<char> {
        match self {
            TokenKind::Ident => "Ident"@,
            TokenKind::String => "String"@,
            TokenKind::Int => "Int"@,
            TokenKind::Colon => "Colon"@,
            TokenKind::Hashtag => "Hashtag"@,
            TokenKind::Comma => "Comma"@,
            TokenKind::Dollar => "Dollar"@,
            TokenKind::Eof => "Eof"@,
            TokenKind::Newline => "Newline"@,
        }
    }

    /// The name of the kind as it appears in messages.
    pub fn name(&self) -> (name: &'static str)
        ensures
            name@ == self.spec_name(),
    {
        match self {
            TokenKind::Ident => "Ident",
            TokenKind::String => "String",
            TokenKind::Int => "Int",
            TokenKind::Colon => "Colon",
            TokenKind::Hashtag => "Hashtag",
            TokenKind::Comma => "Comma",
            TokenKind::Dollar => "Dollar",
            TokenKind::Eof => "Eof",
            TokenKind::Newline => "Newline",
        }
    }
}

/// A piece of the source text: its kind, the text itself, and where it
/// stands.
#[derive(Debug)]
pub struct Token {
    pub token_kind: TokenKind,
    pub lexeme: String,
    pub span: Span,
}

/// A [`Token`] with its lexeme as a sequence of characters.
pub struct TokenView {
    pub kind: TokenKind,
    pub lexeme: Seq<char>,
    pub span: Span,
}

impl View for Token {
    type V = TokenView;

    open spec fn view(&self) -> TokenView {
        TokenView { kind: self.token_kind, lexeme: self.lexeme@, span: self.span }
    }
}

impl Clone for Token {
    fn clone(&self) -> (copy: Self)
        ensures
            copy == *self,
    {
        Token { token_kind: self.token_kind, lexeme: self.lexeme.clone(), span: self.span }
    }
}

/// The views of a sequence of tokens, in order.
pub open spec fn token_views(tokens: Seq<Token>) -> Seq<TokenView> {
    tokens.map_values(|t: Token| t@)
}

/// The byte `:`.
pub const COLON: u8 = 0x3a;

/// The byte `#`.
pub const HASHTAG: u8 = 0x23;

/// The byte `,`.
pub const COMMA: u8 = 0x2c;

/// The byte `$`.
pub const DOLLAR: u8 = 0x24;

/// The byte `"`.
pub const QUOTE: u8 = 0x22;

/// The byte `.`.
pub const POINT: u8 = 0x2e;

/// The byte `_`.
pub const UNDERSCORE: u8 = 0x5f;

/// The space.
pub const SPACE: u8 = 0x20;

/// The carriage return.
pub const CARRIAGE_RETURN: u8 = 0x0d;

/// The tab.
pub const TAB: u8 = 0x09;

/// Letters and the underscore: what an identifier starts with.
pub open spec fn is_alpha_byte(b: u8) -> bool {
    (0x61 <= b <= 0x7a) || (0x41 <= b <= 0x5a) || b == UNDERSCORE
}

/// The ten decimal digits.
pub open spec fn is_digit_byte(b: u8) -> bool {
    0x30 <= b <= 0x39
}

/// What an identifier goes on with.
pub open spec fn is_ident_byte(b: u8) -> bool {
    is_alpha_byte(b) || is_digit_byte(b)
}

/// Space, carriage return, tab and newline.
pub open spec fn is_blank_byte(b: u8) -> bool {
    b == SPACE || b == CARRIAGE_RETURN || b == TAB || b == NEWLINE
}

/// The number of identifier bytes that stand in a row at `from`.
pub open spec fn ident_run(bytes: Seq<u8>, from: int) -> nat
    decreases bytes.len() - from,
{
    if 0 <= from < bytes.len() && is_ident_byte(bytes[from]) {
        1 + ident_run(bytes, from + 1)
    } else {
        0
    }
}

/// The number of digits that stand in a row at `from`.
pub open spec fn digit_run(bytes: Seq<u8>, from: int) -> nat
    decreases bytes.len() - from,
{
    if 0 <= from < bytes.len() && is_digit_byte(bytes[from]) {
        1 + digit_run(bytes, from + 1)
    } else {
        0
    }
}

/// The number of bytes at `from` before the next double quote, or before
/// the end of the text where no quote follows.
pub open spec fn quoted_run(bytes: Seq<u8>, from: int) -> nat
    decreases bytes.len() - from,
{
    if 0 <= from < bytes.len() && bytes[from] != QUOTE {
        1 + quoted_run(bytes, from + 1)
    } else {
        0
    }
}

/// The number of continuation bytes that stand in a row at `from`: the
/// rest of a character whose first byte stands just before.
pub open spec fn continuation_run(bytes: Seq<u8>, from: int) -> nat
    decreases bytes.len() - from,
{
    if 0 <= from < bytes.len() && is_continuation_byte(bytes[from]) {
        1 + continuation_run(bytes, from + 1)
    } else {
        0
    }
}

/// The number of bytes that the number starting at `start` holds after
/// its first digit: its further digits, and a decimal point with the digits
/// behind it where a digit follows the point.
pub open spec fn number_run(bytes: Seq<u8>, start: int) -> nat {
    let whole = digit_run(bytes, start + 1);
    let point = start + 1 + whole;
    if point + 1 < bytes.len() && bytes[point] == POINT && is_digit_byte(bytes[point + 1]) {
        whole + 1 + digit_run(bytes, point + 1)
    } else {
        whole
    }
}

/// What stands at one place of the source text. `more` counts the bytes
/// that follow the first one.
pub enum Lexeme {
    Token { kind: TokenKind, more: nat },
    /// White space, which yields nothing.
    Blank,
    /// A character that no token starts with.
    Unexpected { more: nat },
    /// A double quote that no second one closes.
    Unterminated,
}

/// The lexeme that starts at `start`, a place inside the text.
pub open spec fn lexeme_at(bytes: Seq<u8>, start: int) -> Lexeme {
    let b = bytes[start];
    if b == COLON {
        Lexeme::Token { kind: TokenKind::Colon, more: 0 }
    } else if b == HASHTAG {
        Lexeme::Token { kind: TokenKind::Hashtag, more: 0 }
    } else if b == COMMA {
        Lexeme::Token { kind: TokenKind::Comma, more: 0 }
    } else if b == DOLLAR {
        Lexeme::Token { kind: TokenKind::Dollar, more: 0 }
    } else if b == QUOTE {
        let inside = quoted_run(bytes, start + 1);
        if start + 1 + inside < bytes.len() {
            Lexeme::Token { kind: TokenKind::String, more: inside + 1 }
        } else {
            Lexeme::Unterminated
        }
    } else if is_digit_byte(b) {
        Lexeme::Token { kind: TokenKind::Int, more: number_run(bytes, start) }
    } else if is_alpha_byte(b) {
        Lexeme::Token { kind: TokenKind::Ident, more: ident_run(bytes, start + 1) }
    } else if is_blank_byte(b) {
        Lexeme::Blank
    } else {
        Lexeme::Unexpected { more: continuation_run(bytes, start + 1) }
    }
}

/// A run of identifier bytes ends inside the text.
pub proof fn lemma_ident_run_fits(bytes: Seq<u8>, from: int)
    requires
        0 <= from <= bytes.len(),
    ensures
        from + ident_run(bytes, from) <= bytes.len(),
    decreases bytes.len() - from,
{
    if from < bytes.len() && is_ident_byte(bytes[from]) {
        lemma_ident_run_fits(bytes, from + 1);
    }
}

/// A run of digits ends inside the text.
pub proof fn lemma_digit_run_fits(bytes: Seq<u8>, from: int)
    requires
        0 <= from <= bytes.len(),
    ensures
        from + digit_run(bytes, from) <= bytes.len(),
    decreases bytes.len() - from,
{
    if from < bytes.len() && is_digit_byte(bytes[from]) {
        lemma_digit_run_fits(bytes, from + 1);
    }
}

/// The inside of a string ends inside the text.
pub proof fn lemma_quoted_run_fits(bytes: Seq<u8>, from: int)
    requires
        0 <= from <= bytes.len(),
    ensures
        from + quoted_run(bytes, from) <= bytes.len(),
    decreases bytes.len() - from,
{
    if from < bytes.len() && bytes[from] != QUOTE {
        lemma_quoted_run_fits(bytes, from + 1);
    }
}

/// A run of continuation bytes ends inside the text.
pub proof fn lemma_continuation_run_fits(bytes: Seq<u8>, from: int)
    requires
        0 <= from <= bytes.len(),
    ensures
        from + continuation_run(bytes, from) <= bytes.len(),
    decreases bytes.len() - from,
{
    if from < bytes.len() && is_continuation_byte(bytes[from]) {
        lemma_continuation_run_fits(bytes, from + 1);
    }
}

/// A number ends inside the text.
pub proof fn lemma_number_run_fits(bytes: Seq<u8>, start: int)
    requires
        0 <= start < bytes.len(),
    ensures
        start + 1 + number_run(bytes, start) <= bytes.len(),
{
    lemma_digit_run_fits(bytes, start + 1);
    let point = start + 1 + digit_run(bytes, start + 1);
    if point + 1 < bytes.len() {
        lemma_digit_run_fits(bytes, point + 1);
    }
}

/// Every lexeme ends inside the text.
pub proof fn lemma_lexeme_fits(bytes: Seq<u8>, start: int)
    requires
        0 <= start < bytes.len(),
    ensures
        match lexeme_at(bytes, start) {
            Lexeme::Token { kind, more } => start + 1 + more <= bytes.len(),
            Lexeme::Unexpected { more } => start + 1 + more <= bytes.len(),
            _ => true,
        },
{
    lemma_number_run_fits(bytes, start);
    lemma_ident_run_fits(bytes, start + 1);
    lemma_continuation_run_fits(bytes, start + 1);
}

/// True for the bytes of an identifier: a letter or an underscore, and
/// then letters, digits and underscores.
pub open spec fn is_identifier(bytes: Seq<u8>) -> bool {
    &&& bytes.len() > 0
    &&& is_alpha_byte(bytes[0])
    &&& forall|i: int| 0 <= i < bytes.len() ==> is_ident_byte(#[trigger] bytes[i])
}

/// Where only identifier bytes follow, the run of them reaches the end of
/// the text.
pub proof fn lemma_ident_run_to_end(bytes: Seq<u8>, from: int)
    requires
        0 <= from <= bytes.len(),
        forall|i: int| from <= i < bytes.len() ==> is_ident_byte(#[trigger] bytes[i]),
    ensures
        ident_run(bytes, from) == bytes.len() - from,
    decreases bytes.len() - from,
{
    if from < bytes.len() {
        lemma_ident_run_to_end(bytes, from + 1);
    }
}

/// The token of the given kind that covers the bytes from `start` up to
/// `end`.
pub open spec fn token_at(bytes: Seq<u8>, kind: TokenKind, start: int, end: int) -> TokenView {
    TokenView {
        kind,
        lexeme: text_between(bytes, start, end),
        span: Span { start: start as usize, end: end as usize },
    }
}

/// The error for a character that no token starts with.
pub open spec fn unexpected_character(bytes: Seq<u8>, start: int, end: int) -> ErrorView {
    ErrorView {
        message: "Unexpected character: "@ + text_between(bytes, start, end),
        span: Span { start: start as usize, end: end as usize },
    }
}

/// The error for a string that runs to the end of the text.
pub open spec fn unterminated_string(bytes: Seq<u8>, start: int) -> ErrorView {
    ErrorView {
        message: "Unterminated string"@,
        span: Span { start: start as usize, end: bytes.len() as usize },
    }
}

/// What scanning yields: the tokens in order, and the error that stopped
/// it, if one did. The tokens are those before the error.
pub struct Scan {
    pub tokens: Seq<TokenView>,
    pub error: Option<ErrorView>,
}

/// Scanning the text from `from` to its end.
pub open spec fn scan(bytes: Seq<u8>, from: int) -> Scan
    decreases bytes.len() - from,
{
    if from < 0 || from >= bytes.len() {
        Scan { tokens: seq![], error: None }
    } else {
        match lexeme_at(bytes, from) {
            Lexeme::Token { kind, more } => {
                proof {
                    lemma_lexeme_fits(bytes, from);
                }
                let end = from + 1 + more;
                let rest = scan(bytes, end);
                Scan { tokens: seq![token_at(bytes, kind, from, end)] + rest.tokens, error: rest.error }
            },
            Lexeme::Blank => scan(bytes, from + 1),
            Lexeme::Unexpected { more } => Scan {
                tokens: seq![],
                error: Some(unexpected_character(bytes, from, from + 1 + more)),
            },
            Lexeme::Unterminated => Scan {
                tokens: seq![],
                error: Some(unterminated_string(bytes, from)),
            },
        }
    }
}

/// Where the last lexeme starts that scanning from `from` looks at: the
/// place of the error where there is one, and `start` itself where the text
/// has already ended.
pub open spec fn scan_start(bytes: Seq<u8>, from: int, start: int) -> int
    decreases bytes.len() - from,
{
    if from < 0 || from >= bytes.len() {
        start
    } else {
        match lexeme_at(bytes, from) {
            Lexeme::Token { kind, more } => {
                proof {
                    lemma_lexeme_fits(bytes, from);
                }
                scan_start(bytes, from + 1 + more, from)
            },
            Lexeme::Blank => scan_start(bytes, from + 1, from),
            _ => from,
        }
    }
}

fn is_digit(b: u8) -> (yes: bool)
    ensures
        yes == is_digit_byte(b),
{
    0x30 <= b && b <= 0x39
}

fn is_alpha(b: u8) -> (yes: bool)
    ensures
        yes == is_alpha_byte(b),
{
    (0x61 <= b && b <= 0x7a) || (0x41 <= b && b <= 0x5a) || b == UNDERSCORE
}

/// The scanner's state: the text, the tokens found so far, and the cursor.
pub struct Lexer<'a> {
    pub source: &'a str,
    pub tokens: Vec<Token>,
    pub start: usize,
    pub current: usize,
    pub line: usize,
}

impl<'a> Lexer<'a> {
    /// The bytes of the text that is scanned.
    pub open spec fn bytes(&self) -> Seq<u8> {
        self.source.spec_bytes()
    }

    /// The cursor stands inside the text or at its end, between two
    /// characters.
    pub open spec fn wf(&self) -> bool {
        &&& self.current <= self.bytes().len()
        &&& is_char_boundary(self.bytes(), self.current as int)
    }

    /// A scanner at the start of `source`, in line 1, with no tokens yet.
    pub fn new(source: &'a str) -> (lexer: Self)
        ensures
            lexer.wf(),
            lexer.source == source,
            lexer.tokens@.len() == 0,
            lexer.start == 0,
            lexer.current == 0,
            lexer.line == 1,
    {
        proof {
            lemma_text_is_utf8(source);
        }
        Self { source, tokens: Vec::new(), start: 0, current: 0, line: 1 }
    }

    /// Scans the text from the cursor to its end and appends the tokens
    /// found to `tokens`. It stops at the first character that starts no
    /// token, and at a string that is not closed; the tokens found before
    /// stay, and the cursor is left behind the place of the error. The span
    /// of the error and the span of every token found can be cut out of the
    /// text.
    pub fn scan_tokens(&mut self) -> (outcome: Result<(), Error>)
        requires
            old(self).wf(),
        ensures
            final(self).wf(),
            final(self).source == old(self).source,
            outcome matches Err(error) ==> error.span.fits(old(self).bytes()),
            forall|i: int|
                old(self).tokens@.len() <= i < final(self).tokens@.len() ==> (
                #[trigger] final(self).tokens@[i]).span.fits(old(self).bytes()),
            token_views(final(self).tokens@) == token_views(old(self).tokens@) + scan(
                old(self).bytes(),
                old(self).current as int,
            ).tokens,
            match outcome {
                Ok(()) => {
                    &&& scan(old(self).bytes(), old(self).current as int).error is None
                    &&& final(self).current == old(self).bytes().len()
                },
                Err(error) => {
                    &&& scan(old(self).bytes(), old(self).current as int).error == Some(error@)
                    &&& final(self).current == error.span.end
                },
            },
            old(self).current <= final(self).current,
            final(self).start == scan_start(
                old(self).bytes(),
                old(self).current as int,
                old(self).start as int,
            ),
            final(self).line == line_after(
                old(self).line,
                newlines_between(
                    old(self).bytes(),
                    old(self).current as int,
                    final(self).current as int,
                ),
            ),
    {
        let ghost bytes = self.bytes();
        let ghost from = self.current as int;
        let ghost before = token_views(self.tokens@);
        let ghost first_line = self.line;
        let length = self.source.as_bytes().len();
        proof {
            lemma_text_is_utf8(self.source);
            lemma_scan_spans_fit(bytes, from);
            assert forall|i: int|
                before.len() <= i < (before + scan(bytes, from).tokens).len() implies (
            #[trigger] (before + scan(bytes, from).tokens)[i]).span.fits(bytes) by {
                assert((before + scan(bytes, from).tokens)[i] == scan(bytes, from).tokens[i
                    - before.len()]);
            }
        }
        while self.current < length
            invariant
                self.wf(),
                length == bytes.len(),
                forall|i: int|
                    before.len() <= i < (before + scan(bytes, from).tokens).len() ==> (
                    #[trigger] (before + scan(bytes, from).tokens)[i]).span.fits(bytes),
                scan(bytes, from).error matches Some(error) ==> error.span.fits(bytes),
                self.bytes() == bytes,
                self.source == old(self).source,
                from == old(self).current,
                before == token_views(old(self).tokens@),
                first_line == old(self).line,
                from <= self.current,
                before + scan(bytes, from).tokens == token_views(self.tokens@) + scan(
                    bytes,
                    self.current as int,
                ).tokens,
                scan(bytes, from).error == scan(bytes, self.current as int).error,
                scan_start(bytes, from, old(self).start as int) == scan_start(
                    bytes,
                    self.current as int,
                    self.start as int,
                ),
                self.line == line_after(
                    first_line,
                    newlines_between(bytes, from, self.current as int),
                ),
            decreases bytes.len() - self.current,
        {
            self.start = self.current;
            let ghost here = self.current as int;
            let step = self.scan_token();
            proof {
                lemma_newlines_add(bytes, from, here, self.current as int);
            }
            match step {
                Ok(()) => {},
                Err(error) => {
                    proof {
                        let all = before + scan(bytes, from).tokens;
                        assert(token_views(self.tokens@) + Seq::<TokenView>::empty() =~= all);
                        assert forall|i: int| before.len() <= i < self.tokens@.len() implies (
                        #[trigger] self.tokens@[i]).span.fits(bytes) by {
                            assert(all[i] == self.tokens@[i]@);
                        }
                    }
                    return Err(error);
                },
            }
        }
        proof {
            let all = before + scan(bytes, from).tokens;
            assert(token_views(self.tokens@) + Seq::<TokenView>::empty() =~= all);
            assert forall|i: int| before.len() <= i < self.tokens@.len() implies (
            #[trigger] self.tokens@[i]).span.fits(bytes) by {
                assert(all[i] == self.tokens@[i]@);
            }
        }
        Ok(())
    }

    /// Scans the one lexeme that starts at the cursor.
    fn scan_token(&mut self) -> (outcome: Result<(), Error>)
        requires
            old(self).wf(),
            old(self).current < old(self).bytes().len(),
            old(self).start == old(self).current,
        ensures
            final(self).wf(),
            final(self).source == old(self).source,
            final(self).start == old(self).start,
            match lexeme_at(old(self).bytes(), old(self).current as int) {
                Lexeme::Token { kind, more } => {
                    &&& outcome is Ok
                    &&& final(self).current == old(self).current + 1 + more
                    &&& token_views(final(self).tokens@) == token_views(old(self).tokens@).push(
                        token_at(
                            old(self).bytes(),
                            kind,
                            old(self).current as int,
                            final(self).current as int,
                        ),
                    )
                },
                Lexeme::Blank => {
                    &&& outcome is Ok
                    &&& final(self).current == old(self).current + 1
                    &&& final(self).tokens@ == old(self).tokens@
                },
                Lexeme::Unexpected { more } => {
                    &&& outcome matches Err(error)
                    &&& error@ == unexpected_character(
                        old(self).bytes(),
                        old(self).current as int,
                        final(self).current as int,
                    )
                    &&& final(self).current == old(self).current + 1 + more
                    &&& final(self).tokens@ == old(self).tokens@
                },
                Lexeme::Unterminated => {
                    &&& outcome matches Err(error)
                    &&& error@ == unterminated_string(old(self).bytes(), old(self).current as int)
                    &&& final(self).current == old(self).bytes().len()
                    &&& final(self).tokens@ == old(self).tokens@
                },
            },
            final(self).line == line_after(
                old(self).line,
                newlines_between(
                    old(self).bytes(),
                    old(self).current as int,
                    final(self).current as int,
                ),
            ),
    {
        let ghost bytes = self.bytes();
        let ghost here = self.current as int;
        proof {
            lemma_text_is_utf8(self.source);
            assert(newlines_between(bytes, here, here) == 0);
        }
        let c = self.advance();
        if c == COLON {
            proof {
                lemma_boundary_around_ascii(bytes, here);
            }
            self.add_token(TokenKind::Colon);
            Ok(())
        } else if c == HASHTAG {
            proof {
                lemma_boundary_around_ascii(bytes, here);
            }
            self.add_token(TokenKind::Hashtag);
            Ok(())
        } else if c == COMMA {
            proof {
                lemma_boundary_around_ascii(bytes, here);
            }
            self.add_token(TokenKind::Comma);
            Ok(())
        } else if c == DOLLAR {
            proof {
                lemma_boundary_around_ascii(bytes, here);
            }
            self.add_token(TokenKind::Dollar);
            Ok(())
        } else if c == QUOTE {
            let outcome = self.string();
            proof {
                lemma_newlines_add(bytes, here, here + 1, self.current as int);
            }
            outcome
        } else if is_digit(c) {
            proof {
                lemma_boundary_around_ascii(bytes, here);
            }
            self.number();
            proof {
                lemma_newlines_add(bytes, here, here + 1, self.current as int);
            }
            Ok(())
        } else if is_alpha(c) {
            proof {
                lemma_boundary_around_ascii(bytes, here);
            }
            self.identifier();
            proof {
                lemma_newlines_add(bytes, here, here + 1, self.current as int);
            }
            Ok(())
        } else if c == NEWLINE {
            proof {
                lemma_boundary_around_ascii(bytes, here);
            }
            self.next_line();
            Ok(())
        } else if c == SPACE || c == CARRIAGE_RETURN || c == TAB {
            proof {
                lemma_boundary_around_ascii(bytes, here);
            }
            Ok(())
        } else {
            Err(self.unexpected())
        }
    }

    /// Scans the rest of an identifier whose first byte has been taken.
    fn identifier(&mut self)
        requires
            old(self).start < old(self).current <= old(self).bytes().len(),
            is_char_boundary(old(self).bytes(), old(self).start as int),
            is_char_boundary(old(self).bytes(), old(self).current as int),
        ensures
            final(self).wf(),
            final(self).source == old(self).source,
            final(self).start == old(self).start,
            final(self).line == old(self).line,
            final(self).current == old(self).current + ident_run(
                old(self).bytes(),
                old(self).current as int,
            ),
            newlines_between(old(self).bytes(), old(self).current as int, final(self).current as int)
                == 0,
            token_views(final(self).tokens@) == token_views(old(self).tokens@).push(
                token_at(
                    old(self).bytes(),
                    TokenKind::Ident,
                    old(self).start as int,
                    final(self).current as int,
                ),
            ),
    {
        let ghost bytes = self.bytes();
        let ghost from = self.current as int;
        proof {
            lemma_text_is_utf8(self.source);
        }
        loop
            invariant
                self.source == old(self).source,
                self.tokens == old(self).tokens,
                self.start == old(self).start,
                self.line == old(self).line,
                self.bytes() == bytes,
                valid_utf8(bytes),
                from <= self.current <= bytes.len(),
                is_char_boundary(bytes, self.current as int),
                self.current + ident_run(bytes, self.current as int) == from + ident_run(bytes, from),
                newlines_between(bytes, from, self.current as int) == 0,
            ensures
                ident_run(bytes, self.current as int) == 0,
            decreases bytes.len() - self.current,
        {
            let c = self.peek();
            if !(is_alpha(c) || is_digit(c)) {
                break;
            }
            proof {
                lemma_boundary_around_ascii(bytes, self.current as int);
            }
            self.advance();
        }
        self.add_token(TokenKind::Ident);
    }

    /// Scans the rest of a number whose first digit has been taken.
    fn number(&mut self)
        requires
            old(self).start + 1 == old(self).current <= old(self).bytes().len(),
            is_char_boundary(old(self).bytes(), old(self).start as int),
            is_char_boundary(old(self).bytes(), old(self).current as int),
        ensures
            final(self).wf(),
            final(self).source == old(self).source,
            final(self).start == old(self).start,
            final(self).line == old(self).line,
            final(self).current == old(self).current + number_run(
                old(self).bytes(),
                old(self).start as int,
            ),
            newlines_between(old(self).bytes(), old(self).current as int, final(self).current as int)
                == 0,
            token_views(final(self).tokens@) == token_views(old(self).tokens@).push(
                token_at(
                    old(self).bytes(),
                    TokenKind::Int,
                    old(self).start as int,
                    final(self).current as int,
                ),
            ),
    {
        let ghost bytes = self.bytes();
        let ghost from = self.current as int;
        proof {
            lemma_text_is_utf8(self.source);
        }
        self.digits();
        let ghost point = self.current as int;
        if self.peek() == POINT && is_digit(self.peek_next()) {
            proof {
                lemma_boundary_around_ascii(bytes, point);
            }
            self.advance();
            self.digits();
            proof {
                lemma_newlines_add(bytes, from, point + 1, self.current as int);
            }
        }
        self.add_token(TokenKind::Int);
    }

    /// Takes the digits that stand in a row at the cursor.
    fn digits(&mut self)
        requires
            old(self).current <= old(self).bytes().len(),
            is_char_boundary(old(self).bytes(), old(self).current as int),
        ensures
            final(self).source == old(self).source,
            final(self).tokens == old(self).tokens,
            final(self).start == old(self).start,
            final(self).line == old(self).line,
            final(self).current == old(self).current + digit_run(
                old(self).bytes(),
                old(self).current as int,
            ),
            final(self).current <= old(self).bytes().len(),
            is_char_boundary(old(self).bytes(), final(self).current as int),
            newlines_between(old(self).bytes(), old(self).current as int, final(self).current as int)
                == 0,
    {
        let ghost bytes = self.bytes();
        let ghost from = self.current as int;
        proof {
            lemma_text_is_utf8(self.source);
        }
        loop
            invariant
                self.source == old(self).source,
                self.tokens == old(self).tokens,
                self.start == old(self).start,
                self.line == old(self).line,
                self.bytes() == bytes,
                valid_utf8(bytes),
                from <= self.current <= bytes.len(),
                is_char_boundary(bytes, self.current as int),
                self.current + digit_run(bytes, self.current as int) == from + digit_run(bytes, from),
                newlines_between(bytes, from, self.current as int) == 0,
            ensures
                digit_run(bytes, self.current as int) == 0,
            decreases bytes.len() - self.current,
        {
            if !is_digit(self.peek()) {
                break;
            }
            proof {
                lemma_boundary_around_ascii(bytes, self.current as int);
            }
            self.advance();
        }
    }

    /// Scans the rest of a string whose opening quote has been taken.
    fn string(&mut self) -> (outcome: Result<(), Error>)
        requires
            old(self).start + 1 == old(self).current <= old(self).bytes().len(),
            is_char_boundary(old(self).bytes(), old(self).start as int),
        ensures
            final(self).wf(),
            final(self).source == old(self).source,
            final(self).start == old(self).start,
            final(self).line == line_after(
                old(self).line,
                newlines_between(
                    old(self).bytes(),
                    old(self).current as int,
                    final(self).current as int,
                ),
            ),
            old(self).current <= final(self).current,
            ({
                let inside = quoted_run(old(self).bytes(), old(self).current as int);
                if old(self).current + inside < old(self).bytes().len() {
                    &&& outcome is Ok
                    &&& final(self).current == old(self).current + inside + 1
                    &&& token_views(final(self).tokens@) == token_views(old(self).tokens@).push(
                        token_at(
                            old(self).bytes(),
                            TokenKind::String,
                            old(self).start as int,
                            final(self).current as int,
                        ),
                    )
                } else {
                    &&& outcome matches Err(error)
                    &&& error@ == unterminated_string(old(self).bytes(), old(self).start as int)
                    &&& final(self).current == old(self).bytes().len()
                    &&& final(self).tokens@ == old(self).tokens@
                }
            }),
    {
        let ghost bytes = self.bytes();
        let ghost from = self.current as int;
        let ghost first_line = self.line;
        proof {
            lemma_text_is_utf8(self.source);
        }
        while self.peek() != QUOTE && !self.is_at_end()
            invariant
                self.source == old(self).source,
                self.tokens == old(self).tokens,
                self.start == old(self).start,
                self.bytes() == bytes,
                from <= self.current <= bytes.len(),
                self.current + quoted_run(bytes, self.current as int) == from + quoted_run(
                    bytes,
                    from,
                ),
                self.line == line_after(
                    first_line,
                    newlines_between(bytes, from, self.current as int),
                ),
            decreases bytes.len() - self.current,
        {
            if self.peek() == NEWLINE {
                self.next_line();
            }
            self.advance();
        }
        if self.is_at_end() {
            proof {
                is_char_boundary_start_end_of_seq(bytes);
            }
            let end = self.current;
            return Err(Error::new(String::from_str("Unterminated string"), Span::new(self.start, end)));
        }
        let ghost closing = self.current as int;
        proof {
            lemma_boundary_around_ascii(bytes, closing);
        }
        self.advance();
        self.add_token(TokenKind::String);
        Ok(())
    }

    /// Takes the rest of a character that starts no token, and makes the
    /// error that names it.
    fn unexpected(&mut self) -> (error: Error)
        requires
            old(self).start + 1 == old(self).current <= old(self).bytes().len(),
            is_char_boundary(old(self).bytes(), old(self).start as int),
            old(self).bytes()[old(self).start as int] != NEWLINE,
        ensures
            final(self).wf(),
            final(self).source == old(self).source,
            final(self).tokens == old(self).tokens,
            final(self).start == old(self).start,
            final(self).line == old(self).line,
            final(self).current == old(self).current + continuation_run(
                old(self).bytes(),
                old(self).current as int,
            ),
            newlines_between(old(self).bytes(), old(self).start as int, final(self).current as int)
                == 0,
            error@ == unexpected_character(
                old(self).bytes(),
                old(self).start as int,
                final(self).current as int,
            ),
    {
        let ghost bytes = self.bytes();
        let ghost from = self.current as int;
        proof {
            lemma_text_is_utf8(self.source);
            assert(newlines_between(bytes, from - 1, from - 1) == 0);
        }
        loop
            invariant
                self.source == old(self).source,
                self.tokens == old(self).tokens,
                self.start == old(self).start,
                self.line == old(self).line,
                self.bytes() == bytes,
                from <= self.current <= bytes.len(),
                self.current + continuation_run(bytes, self.current as int) == from
                    + continuation_run(bytes, from),
                newlines_between(bytes, from - 1, self.current as int) == 0,
            ensures
                continuation_run(bytes, self.current as int) == 0,
            decreases bytes.len() - self.current,
        {
            let c = self.peek();
            if self.is_at_end() || !(0x80 <= c && c <= 0xbf) {
                break;
            }
            self.advance();
        }
        proof {
            if self.current < bytes.len() {
                is_char_boundary_iff_not_is_continuation_byte(bytes, self.current as int);
            } else {
                is_char_boundary_start_end_of_seq(bytes);
            }
        }
        let span = Span::new(self.start, self.current);
        let text = span.extract_from_str(self.source);
        let mut message = String::from_str("Unexpected character: ");
        message.append(text);
        proof {
            encode_utf8_decode_utf8(text@);
        }
        Error::new(message, span)
    }

    /// Appends the token that reaches from `start` to the cursor.
    fn add_token(&mut self, token_kind: TokenKind)
        requires
            old(self).start <= old(self).current <= old(self).bytes().len(),
            is_char_boundary(old(self).bytes(), old(self).start as int),
            is_char_boundary(old(self).bytes(), old(self).current as int),
        ensures
            final(self).wf(),
            final(self).source == old(self).source,
            final(self).start == old(self).start,
            final(self).current == old(self).current,
            final(self).line == old(self).line,
            token_views(final(self).tokens@) == token_views(old(self).tokens@).push(
                token_at(
                    old(self).bytes(),
                    token_kind,
                    old(self).start as int,
                    old(self).current as int,
                ),
            ),
    {
        let span = Span::new(self.start, self.current);
        let text = span.extract_from_str(self.source);
        let lexeme = text.to_owned();
        proof {
            encode_utf8_decode_utf8(text@);
        }
        let token = Token { token_kind, lexeme, span };
        self.tokens.push(token);
    }

    /// Counts one more line.
    fn next_line(&mut self)
        ensures
            final(self).source == old(self).source,
            final(self).tokens == old(self).tokens,
            final(self).start == old(self).start,
            final(self).current == old(self).current,
            final(self).line == line_after(old(self).line, 1),
    {
        if self.line < usize::MAX {
            self.line += 1;
        }
    }

    /// Takes the byte at the cursor.
    fn advance(&mut self) -> (byte: u8)
        requires
            old(self).current < old(self).bytes().len(),
        ensures
            final(self).source == old(self).source,
            final(self).tokens == old(self).tokens,
            final(self).start == old(self).start,
            final(self).line == old(self).line,
            final(self).current == old(self).current + 1,
            byte == old(self).bytes()[old(self).current as int],
    {
        let bytes = self.source.as_bytes();
        let byte = bytes[self.current];
        self.current += 1;
        byte
    }

    /// The byte at the cursor, or zero where the text has ended.
    fn peek(&self) -> (byte: u8)
        ensures
            byte == if self.current < self.bytes().len() {
                self.bytes()[self.current as int]
            } else {
                0
            },
    {
        let bytes = self.source.as_bytes();
        if self.current >= bytes.len() {
            return 0;
        }
        bytes[self.current]
    }

    /// The byte behind the one at the cursor, or zero where there is none.
    fn peek_next(&self) -> (byte: u8)
        ensures
            byte == if self.current + 1 < self.bytes().len() {
                self.bytes()[self.current + 1]
            } else {
                0
            },
    {
        let bytes = self.source.as_bytes();
        if self.current >= bytes.len() || bytes.len() - self.current <= 1 {
            return 0;
        }
        bytes[self.current + 1]
    }

    fn is_at_end(&self) -> (ended: bool)
        ensures
            ended == (self.current >= self.bytes().len()),
    {
        self.current >= self.source.as_bytes().len()
    }

    /// A copy of the tokens found so far.
    pub fn get_tokens(&self) -> (tokens: Vec<Token>)
        ensures
            tokens@ == self.tokens@,
    {
        let tokens = self.tokens.clone();
        tokens
    }
}

/// An identifier that stands alone is scanned as one token that covers
/// it.
pub proof fn lemma_identifier_scans_alone(bytes: Seq<u8>)
    requires
        is_identifier(bytes),
    ensures
        scan(bytes, 0) == (Scan {
            tokens: seq![token_at(bytes, TokenKind::Ident, 0, bytes.len() as int)],
            error: None,
        }),
{
    lemma_ident_run_to_end(bytes, 1);
    assert(scan(bytes, bytes.len() as int).tokens =~= Seq::<TokenView>::empty());
}

/// A run of identifier bytes that starts between two characters ends
/// between two characters.
pub proof fn lemma_ident_run_boundary(bytes: Seq<u8>, from: int)
    requires
        valid_utf8(bytes),
        0 <= from <= bytes.len(),
        is_char_boundary(bytes, from),
    ensures
        is_char_boundary(bytes, from + ident_run(bytes, from)),
    decreases bytes.len() - from,
{
    if from < bytes.len() && is_ident_byte(bytes[from]) {
        lemma_boundary_around_ascii(bytes, from);
        lemma_ident_run_boundary(bytes, from + 1);
    }
}

/// A run of digits that starts between two characters ends between two
/// characters.
pub proof fn lemma_digit_run_boundary(bytes: Seq<u8>, from: int)
    requires
        valid_utf8(bytes),
        0 <= from <= bytes.len(),
        is_char_boundary(bytes, from),
    ensures
        is_char_boundary(bytes, from + digit_run(bytes, from)),
    decreases bytes.len() - from,
{
    if from < bytes.len() && is_digit_byte(bytes[from]) {
        lemma_boundary_around_ascii(bytes, from);
        lemma_digit_run_boundary(bytes, from + 1);
    }
}

/// A run of continuation bytes ends between two characters.
pub proof fn lemma_continuation_run_boundary(bytes: Seq<u8>, from: int)
    requires
        valid_utf8(bytes),
        0 <= from <= bytes.len(),
    ensures
        is_char_boundary(bytes, from + continuation_run(bytes, from)),
    decreases bytes.len() - from,
{
    if from < bytes.len() && is_continuation_byte(bytes[from]) {
        lemma_continuation_run_boundary(bytes, from + 1);
    } else if from < bytes.len() {
        is_char_boundary_iff_not_is_continuation_byte(bytes, from);
    } else {
        is_char_boundary_start_end_of_seq(bytes);
    }
}

/// The inside of a string ends at a double quote or at the end of the
/// text.
pub proof fn lemma_quoted_run_ends_at_quote(bytes: Seq<u8>, from: int)
    requires
        0 <= from <= bytes.len(),
    ensures
        from + quoted_run(bytes, from) < bytes.len() ==> bytes[from + quoted_run(bytes, from)]
            == QUOTE,
    decreases bytes.len() - from,
{
    if from < bytes.len() && bytes[from] != QUOTE {
        lemma_quoted_run_ends_at_quote(bytes, from + 1);
    }
}

/// A lexeme that starts between two characters ends between two
/// characters, inside the text.
pub proof fn lemma_lexeme_boundary(bytes: Seq<u8>, start: int)
    requires
        valid_utf8(bytes),
        0 <= start < bytes.len(),
        is_char_boundary(bytes, start),
    ensures
        match lexeme_at(bytes, start) {
            Lexeme::Token { kind, more } => start + 1 + more <= bytes.len() && is_char_boundary(
                bytes,
                start + 1 + more,
            ),
            Lexeme::Unexpected { more } => start + 1 + more <= bytes.len() && is_char_boundary(
                bytes,
                start + 1 + more,
            ),
            Lexeme::Blank => is_char_boundary(bytes, start + 1),
            Lexeme::Unterminated => is_char_boundary(bytes, bytes.len() as int),
        },
{
    is_char_boundary_start_end_of_seq(bytes);
    let b = bytes[start];
    if b == QUOTE {
        let closing = start + 1 + quoted_run(bytes, start + 1);
        lemma_quoted_run_ends_at_quote(bytes, start + 1);
        if closing < bytes.len() {
            lemma_boundary_around_ascii(bytes, closing);
        }
    } else if b < 0x80 {
        lemma_boundary_around_ascii(bytes, start);
        if is_digit_byte(b) {
            lemma_digit_run_boundary(bytes, start + 1);
            let point = start + 1 + digit_run(bytes, start + 1);
            if point + 1 < bytes.len() && bytes[point] == POINT {
                lemma_boundary_around_ascii(bytes, point);
                lemma_digit_run_boundary(bytes, point + 1);
            }
        } else if is_alpha_byte(b) {
            lemma_ident_run_boundary(bytes, start + 1);
        } else {
            lemma_continuation_run_boundary(bytes, start + 1);
        }
    } else {
        lemma_continuation_run_boundary(bytes, start + 1);
    }
}

/// Scanning from a place between two characters yields only spans that
/// can be cut out of the text: those of the tokens, each of which ends
/// where the next one starts or before, and that of the error.
pub proof fn lemma_scan_spans_fit(bytes: Seq<u8>, from: int)
    requires
        valid_utf8(bytes),
        bytes.len() <= usize::MAX,
        0 <= from <= bytes.len(),
        is_char_boundary(bytes, from),
    ensures
        forall|i: int|
            0 <= i < scan(bytes, from).tokens.len() ==> (#[trigger] scan(
                bytes,
                from,
            ).tokens[i]).span.fits(bytes),
        scan(bytes, from).error matches Some(error) ==> error.span.fits(bytes),
    decreases bytes.len() - from,
{
    if from < bytes.len() {
        lemma_lexeme_boundary(bytes, from);
        match lexeme_at(bytes, from) {
            Lexeme::Token { kind, more } => {
                let end = from + 1 + more;
                lemma_scan_spans_fit(bytes, end);
            },
            Lexeme::Blank => {
                lemma_scan_spans_fit(bytes, from + 1);
            },
            _ => {},
        }
    }
}

/// Scanning yields no end-of-input token and no newline token.
pub proof fn lemma_scan_yields_no_eof_or_newline(bytes: Seq<u8>, from: int)
    ensures
        forall|i: int|
            0 <= i < scan(bytes, from).tokens.len() ==> {
                let kind = (#[trigger] scan(bytes, from).tokens[i]).kind;
                kind != TokenKind::Eof && kind != TokenKind::Newline
            },
    decreases bytes.len() - from,
{
    if 0 <= from < bytes.len() {
        lemma_lexeme_fits(bytes, from);
        match lexeme_at(bytes, from) {
            Lexeme::Token { kind, more } => {
                lemma_scan_yields_no_eof_or_newline(bytes, from + 1 + more);
            },
            Lexeme::Blank => {
                lemma_scan_yields_no_eof_or_newline(bytes, from + 1);
            },
            _ => {},
        }
    }
}

} // verus!
