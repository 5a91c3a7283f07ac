//! The parser: a cursor over the tokens, one token of lookahead, and a
//! function for each rule of the grammar.
//!
//! ```text
//! Program  := Label*
//! Label    := Ident ':' Command*
//! Command  := 'mov' MemArg ',' Expr | 'add' MemArg ',' Expr
//!           | 'sub' MemArg ',' Expr | 'div' MemArg ',' Expr
//!           | 'mul' MemArg | 'pop' MemArg
//!           | 'call' '$' Ident | 'allow' Expr Expr
//! MemArg   := Register | '#' Int
//! Expr     := Int | '$' Ident | MemArg
//! ```
//!
//! A block has no closing token. After each command the parser tries to
//! read a whole label at the cursor; where that succeeds the block ends
//! there, and where it fails the next command of the same block is read.
//! Past the last token the parser sees an end-of-input token that is as
//! wide as nothing and stands where the last token ends.

use vstd::prelude::*;
use vstd::string::*;
use vstd::utf8::*;

use crate::ast::{
    block_spans_fit, command_spans_fit, command_views, expr_span_fits, label_views,
    program_spans_fit, Add, Allow, Call, Command, CommandView, Div, Expr, ExprView, Label,
    LabelView, MemoryFetching, Mov, Mul, Pop, Program, ProgramView, Register, Sub,
};
pub use crate::error::Error;
use crate::error::ErrorView;
use crate::lexer::{
    is_ident_byte, is_identifier, lemma_identifier_scans_alone, scan, token_views, Token,
    TokenKind, TokenView,
};
use crate::span::Span;
use crate::text::{parse_number, quoted, read_number, str_eq};

verus! {

/// What reading one rule at one place yields: the value or the error, and
/// the place where the cursor is left.
pub struct Parsed<T> {
    pub next: int,
    pub outcome: Result<T, ErrorView>,
}

/// The token that stands for the end of the input.
pub open spec fn eof_token(tokens: Seq<TokenView>) -> TokenView {
    let end = if tokens.len() == 0 {
        0
    } else {
        tokens.last().span.end
    };
    TokenView { kind: TokenKind::Eof, lexeme: Seq::empty(), span: Span { start: end, end } }
}

/// The token at `pos`, or the end-of-input token past the last one.
pub open spec fn token_or_eof(tokens: Seq<TokenView>, pos: int) -> TokenView {
    if 0 <= pos < tokens.len() {
        tokens[pos]
    } else {
        eof_token(tokens)
    }
}

/// The place behind the token at `pos`; the end of the input stays where
/// it is.
pub open spec fn after(tokens: Seq<TokenView>, pos: int) -> int {
    if pos < tokens.len() {
        pos + 1
    } else {
        pos
    }
}

/// The error for a token of another kind than the rule asks for.
pub open spec fn wrong_kind(expected: TokenKind, found: TokenView) -> ErrorView {
    ErrorView {
        message: "Expected "@ + expected.spec_name() + ", found "@ + found.kind.spec_name() + " `"@
            + found.lexeme + "`"@,
        span: found.span,
    }
}

/// The error for a token that cannot start what the rule asks for;
/// `wanted` says what that is.
pub open spec fn wrong_start(wanted: Seq<char>, found: TokenView) -> ErrorView {
    ErrorView {
        message: "Expected "@ + wanted + ", found "@ + found.kind.spec_name(),
        span: found.span,
    }
}

/// The error for a token of the right kind whose text is not what the rule
/// asks for; `wanted` says what that is.
pub open spec fn wrong_text(wanted: Seq<char>, found: TokenView) -> ErrorView {
    ErrorView {
        message: "Expected "@ + wanted + ", found "@ + quoted(found.lexeme),
        span: found.span,
    }
}

/// The error for an identifier that names no command.
pub open spec fn unknown_command(found: TokenView) -> ErrorView {
    ErrorView { message: "unexpected command"@, span: found.span }
}

/// Takes the token at `pos`, which has to be of the given kind.
pub open spec fn expect_at(tokens: Seq<TokenView>, pos: int, kind: TokenKind) -> Parsed<TokenView> {
    let token = token_or_eof(tokens, pos);
    Parsed {
        next: after(tokens, pos),
        outcome: if token.kind == kind {
            Ok(token)
        } else {
            Err(wrong_kind(kind, token))
        },
    }
}

/// `Register`: an identifier that is the name of a register.
pub open spec fn register_at(tokens: Seq<TokenView>, pos: int) -> Parsed<Register> {
    let token = token_or_eof(tokens, pos);
    Parsed {
        next: after(tokens, pos),
        outcome: if token.kind != TokenKind::Ident {
            Err(wrong_start("ident"@, token))
        } else {
            match Register::spec_from_name(token.lexeme) {
                Some(register) => Ok(register),
                None => Err(wrong_text("register"@, token)),
            }
        },
    }
}

/// `'#' Int`, read at the `#`: a number that fits in four bytes.
pub open spec fn address_at(tokens: Seq<TokenView>, pos: int) -> Parsed<u32> {
    let number = expect_at(tokens, after(tokens, pos), TokenKind::Int);
    Parsed {
        next: number.next,
        outcome: match number.outcome {
            Err(error) => Err(error),
            Ok(token) => match read_number(token.lexeme, u32::MAX as nat) {
                Some(value) => Ok(value as u32),
                None => Err(wrong_text("address"@, token)),
            },
        },
    }
}

/// `MemArg`: a register or an address. Another token is left where it is.
pub open spec fn memory_at(tokens: Seq<TokenView>, pos: int) -> Parsed<MemoryFetching> {
    let token = token_or_eof(tokens, pos);
    if token.kind == TokenKind::Ident {
        let register = register_at(tokens, pos);
        Parsed {
            next: register.next,
            outcome: match register.outcome {
                Ok(r) => Ok(MemoryFetching::Register(r)),
                Err(error) => Err(error),
            },
        }
    } else if token.kind == TokenKind::Hashtag {
        let address = address_at(tokens, pos);
        Parsed {
            next: address.next,
            outcome: match address.outcome {
                Ok(a) => Ok(MemoryFetching::Addr(a)),
                Err(error) => Err(error),
            },
        }
    } else {
        Parsed { next: pos, outcome: Err(wrong_start("ident or hashtag"@, token)) }
    }
}

/// `Int`: a whole number that fits in 32 bits with a sign.
pub open spec fn int_at(tokens: Seq<TokenView>, pos: int) -> Parsed<ExprView> {
    let token = token_or_eof(tokens, pos);
    Parsed {
        next: after(tokens, pos),
        outcome: if token.kind != TokenKind::Int {
            Err(wrong_start("int"@, token))
        } else {
            match read_number(token.lexeme, i32::MAX as nat) {
                Some(value) => Ok(ExprView::Int(value as i32)),
                None => Err(wrong_text("int"@, token)),
            }
        },
    }
}

/// `'$' Ident`: the name of a label and where it stands.
pub open spec fn label_name_at(tokens: Seq<TokenView>, pos: int) -> Parsed<(Seq<char>, Span)> {
    let dollar = expect_at(tokens, pos, TokenKind::Dollar);
    match dollar.outcome {
        Err(error) => Parsed { next: dollar.next, outcome: Err(error) },
        Ok(_) => {
            let name = expect_at(tokens, dollar.next, TokenKind::Ident);
            Parsed {
                next: name.next,
                outcome: match name.outcome {
                    Ok(token) => Ok((token.lexeme, token.span)),
                    Err(error) => Err(error),
                },
            }
        },
    }
}

/// `Expr`: a number, a label, or a place. Another token is left where it
/// is.
pub open spec fn expr_at(tokens: Seq<TokenView>, pos: int) -> Parsed<ExprView> {
    let token = token_or_eof(tokens, pos);
    if token.kind == TokenKind::Int {
        int_at(tokens, pos)
    } else if token.kind == TokenKind::Dollar {
        let label = label_name_at(tokens, pos);
        Parsed {
            next: label.next,
            outcome: match label.outcome {
                Ok(l) => Ok(ExprView::Label(l.0, l.1)),
                Err(error) => Err(error),
            },
        }
    } else if token.kind == TokenKind::Hashtag || token.kind == TokenKind::Ident {
        let place = memory_at(tokens, pos);
        Parsed {
            next: place.next,
            outcome: match place.outcome {
                Ok(p) => Ok(ExprView::Memory(p)),
                Err(error) => Err(error),
            },
        }
    } else {
        Parsed { next: pos, outcome: Err(wrong_start("int, ident or hashtag"@, token)) }
    }
}

/// `MemArg ',' Expr`: the operands of `mov`, `add`, `sub` and `div`.
pub open spec fn place_and_value_at(tokens: Seq<TokenView>, pos: int) -> Parsed<
    (MemoryFetching, ExprView),
> {
    let place = memory_at(tokens, pos);
    match place.outcome {
        Err(error) => Parsed { next: place.next, outcome: Err(error) },
        Ok(p) => {
            let comma = expect_at(tokens, place.next, TokenKind::Comma);
            match comma.outcome {
                Err(error) => Parsed { next: comma.next, outcome: Err(error) },
                Ok(_) => {
                    let value = expr_at(tokens, comma.next);
                    Parsed {
                        next: value.next,
                        outcome: match value.outcome {
                            Ok(v) => Ok((p, v)),
                            Err(error) => Err(error),
                        },
                    }
                },
            }
        },
    }
}

/// `Expr Expr`: the operands of `allow`.
pub open spec fn two_values_at(tokens: Seq<TokenView>, pos: int) -> Parsed<(ExprView, ExprView)> {
    let first = expr_at(tokens, pos);
    match first.outcome {
        Err(error) => Parsed { next: first.next, outcome: Err(error) },
        Ok(a) => {
            let second = expr_at(tokens, first.next);
            Parsed {
                next: second.next,
                outcome: match second.outcome {
                    Ok(b) => Ok((a, b)),
                    Err(error) => Err(error),
                },
            }
        },
    }
}

/// `Command`: the name of a command and its operands.
pub open spec fn command_at(tokens: Seq<TokenView>, pos: int) -> Parsed<CommandView> {
    let name = expect_at(tokens, pos, TokenKind::Ident);
    match name.outcome {
        Err(error) => Parsed { next: name.next, outcome: Err(error) },
        Ok(token) => {
            let at = name.next;
            if token.lexeme == "mov"@ {
                let operands = place_and_value_at(tokens, at);
                Parsed {
                    next: operands.next,
                    outcome: match operands.outcome {
                        Ok(o) => Ok(CommandView::Mov(o.0, o.1)),
                        Err(error) => Err(error),
                    },
                }
            } else if token.lexeme == "add"@ {
                let operands = place_and_value_at(tokens, at);
                Parsed {
                    next: operands.next,
                    outcome: match operands.outcome {
                        Ok(o) => Ok(CommandView::Add(o.0, o.1)),
                        Err(error) => Err(error),
                    },
                }
            } else if token.lexeme == "sub"@ {
                let operands = place_and_value_at(tokens, at);
                Parsed {
                    next: operands.next,
                    outcome: match operands.outcome {
                        Ok(o) => Ok(CommandView::Sub(o.0, o.1)),
                        Err(error) => Err(error),
                    },
                }
            } else if token.lexeme == "mul"@ {
                let place = memory_at(tokens, at);
                Parsed {
                    next: place.next,
                    outcome: match place.outcome {
                        Ok(p) => Ok(CommandView::Mul(p)),
                        Err(error) => Err(error),
                    },
                }
            } else if token.lexeme == "div"@ {
                let operands = place_and_value_at(tokens, at);
                Parsed {
                    next: operands.next,
                    outcome: match operands.outcome {
                        Ok(o) => Ok(CommandView::Div(o.0, o.1)),
                        Err(error) => Err(error),
                    },
                }
            } else if token.lexeme == "pop"@ {
                let place = memory_at(tokens, at);
                Parsed {
                    next: place.next,
                    outcome: match place.outcome {
                        Ok(p) => Ok(CommandView::Pop(p)),
                        Err(error) => Err(error),
                    },
                }
            } else if token.lexeme == "call"@ {
                let label = label_name_at(tokens, at);
                Parsed {
                    next: label.next,
                    outcome: match label.outcome {
                        Ok(l) => Ok(CommandView::Call(l.0, l.1)),
                        Err(error) => Err(error),
                    },
                }
            } else if token.lexeme == "allow"@ {
                let operands = two_values_at(tokens, at);
                Parsed {
                    next: operands.next,
                    outcome: match operands.outcome {
                        Ok(o) => Ok(CommandView::Allow(o.0, o.1)),
                        Err(error) => Err(error),
                    },
                }
            } else {
                Parsed { next: at, outcome: Err(unknown_command(token)) }
            }
        },
    }
}

/// The place of the first token at or behind `pos` that is no newline.
pub open spec fn skip_newlines(tokens: Seq<TokenView>, pos: int) -> int
    decreases tokens.len() - pos,
{
    if 0 <= pos < tokens.len() && tokens[pos].kind == TokenKind::Newline {
        skip_newlines(tokens, pos + 1)
    } else {
        pos
    }
}

/// Skipping newlines stays inside the input.
pub proof fn lemma_skip_newlines_fits(tokens: Seq<TokenView>, pos: int)
    requires
        0 <= pos <= tokens.len(),
    ensures
        pos <= skip_newlines(tokens, pos) <= tokens.len(),
    decreases tokens.len() - pos,
{
    if pos < tokens.len() && tokens[pos].kind == TokenKind::Newline {
        lemma_skip_newlines_fits(tokens, pos + 1);
    }
}

/// Reading a place leaves the cursor inside the input.
pub proof fn lemma_memory_fits(tokens: Seq<TokenView>, pos: int)
    requires
        0 <= pos <= tokens.len(),
    ensures
        pos <= memory_at(tokens, pos).next <= tokens.len(),
{
}

/// Reading a value leaves the cursor inside the input.
pub proof fn lemma_expr_fits(tokens: Seq<TokenView>, pos: int)
    requires
        0 <= pos <= tokens.len(),
    ensures
        pos <= expr_at(tokens, pos).next <= tokens.len(),
{
    lemma_memory_fits(tokens, pos);
}

/// Reading a place, a comma and a value leaves the cursor inside the input.
pub proof fn lemma_place_and_value_fits(tokens: Seq<TokenView>, pos: int)
    requires
        0 <= pos <= tokens.len(),
    ensures
        pos <= place_and_value_at(tokens, pos).next <= tokens.len(),
{
    lemma_memory_fits(tokens, pos);
    let place = memory_at(tokens, pos);
    lemma_expr_fits(tokens, after(tokens, place.next));
}

/// Reading two values leaves the cursor inside the input.
pub proof fn lemma_two_values_fits(tokens: Seq<TokenView>, pos: int)
    requires
        0 <= pos <= tokens.len(),
    ensures
        pos <= two_values_at(tokens, pos).next <= tokens.len(),
{
    lemma_expr_fits(tokens, pos);
    lemma_expr_fits(tokens, expr_at(tokens, pos).next);
}

/// A command that was read took at least one token, and reading one
/// leaves the cursor inside the input.
pub proof fn lemma_command_advances(tokens: Seq<TokenView>, pos: int)
    requires
        0 <= pos <= tokens.len(),
    ensures
        pos <= command_at(tokens, pos).next <= tokens.len(),
        command_at(tokens, pos).outcome is Ok ==> pos < command_at(tokens, pos).next,
{
    let name = expect_at(tokens, pos, TokenKind::Ident);
    if name.outcome is Ok {
        lemma_place_and_value_fits(tokens, name.next);
        lemma_memory_fits(tokens, name.next);
        lemma_two_values_fits(tokens, name.next);
    }
}

/// `Label`: a name, a colon, and the commands of the block.
pub open spec fn label_at(tokens: Seq<TokenView>, pos: int) -> Parsed<LabelView>
    decreases tokens.len() - pos, 1int,
{
    let name = expect_at(tokens, pos, TokenKind::Ident);
    match name.outcome {
        Err(error) => Parsed { next: name.next, outcome: Err(error) },
        Ok(token) => {
            let colon = expect_at(tokens, name.next, TokenKind::Colon);
            match colon.outcome {
                Err(error) => Parsed { next: colon.next, outcome: Err(error) },
                Ok(_) => {
                    let body = commands_at(tokens, colon.next);
                    Parsed {
                        next: body.next,
                        outcome: match body.outcome {
                            Ok(program) => Ok(LabelView { name: token.lexeme, program }),
                            Err(error) => Err(error),
                        },
                    }
                },
            }
        },
    }
}

/// `Command*`: the commands of one block, which ends at the end of the
/// input, or behind the first command that a whole label follows.
pub open spec fn commands_at(tokens: Seq<TokenView>, pos: int) -> Parsed<Seq<CommandView>>
    decreases tokens.len() - pos, 0int,
{
    if pos < 0 || pos >= tokens.len() {
        Parsed { next: pos, outcome: Ok(Seq::empty()) }
    } else {
        let command = command_at(tokens, skip_newlines(tokens, pos));
        match command.outcome {
            Err(error) => Parsed { next: command.next, outcome: Err(error) },
            Ok(c) => {
                proof {
                    lemma_skip_newlines_fits(tokens, pos);
                    lemma_command_advances(tokens, skip_newlines(tokens, pos));
                }
                if label_at(tokens, command.next).outcome is Ok {
                    Parsed { next: command.next, outcome: Ok(seq![c]) }
                } else {
                    let rest = commands_at(tokens, command.next);
                    Parsed {
                        next: rest.next,
                        outcome: match rest.outcome {
                            Ok(more) => Ok(seq![c] + more),
                            Err(error) => Err(error),
                        },
                    }
                }
            },
        }
    }
}

/// Reading the commands of a block leaves the cursor inside the input, and
/// so does reading a label; a label that was read took at least two tokens.
pub proof fn lemma_label_fits(tokens: Seq<TokenView>, pos: int, block: bool)
    requires
        0 <= pos <= tokens.len(),
    ensures
        block ==> pos <= commands_at(tokens, pos).next <= tokens.len(),
        !block ==> pos <= label_at(tokens, pos).next <= tokens.len(),
        !block && label_at(tokens, pos).outcome is Ok ==> pos + 2 <= label_at(tokens, pos).next,
    decreases tokens.len() - pos, (if block { 0int } else { 1int }),
{
    if block {
        if pos < tokens.len() {
            let at = skip_newlines(tokens, pos);
            lemma_skip_newlines_fits(tokens, pos);
            lemma_command_advances(tokens, at);
            let command = command_at(tokens, at);
            if command.outcome is Ok && !(label_at(tokens, command.next).outcome is Ok) {
                lemma_label_fits(tokens, command.next, true);
            }
        }
    } else {
        let name = expect_at(tokens, pos, TokenKind::Ident);
        let colon = expect_at(tokens, name.next, TokenKind::Colon);
        if name.outcome is Ok && colon.outcome is Ok {
            lemma_label_fits(tokens, colon.next, true);
        }
    }
}

/// `Label*`: the labels up to the end of the input.
pub open spec fn labels_at(tokens: Seq<TokenView>, pos: int) -> Parsed<Seq<LabelView>>
    decreases tokens.len() - pos,
{
    if pos < 0 || pos >= tokens.len() {
        Parsed { next: pos, outcome: Ok(Seq::empty()) }
    } else {
        let label = label_at(tokens, pos);
        match label.outcome {
            Err(error) => Parsed { next: label.next, outcome: Err(error) },
            Ok(l) => {
                proof {
                    lemma_label_fits(tokens, pos, false);
                }
                let rest = labels_at(tokens, label.next);
                Parsed {
                    next: rest.next,
                    outcome: match rest.outcome {
                        Ok(more) => Ok(seq![l] + more),
                        Err(error) => Err(error),
                    },
                }
            },
        }
    }
}

/// `Program`: what parsing the tokens from `pos` on yields.
pub open spec fn program_at(tokens: Seq<TokenView>, pos: int) -> Parsed<ProgramView> {
    let labels = labels_at(tokens, pos);
    Parsed {
        next: labels.next,
        outcome: match labels.outcome {
            Ok(l) => Ok(ProgramView { labels: l }),
            Err(error) => Err(error),
        },
    }
}

/// The commands read so far, put in front of what reading the rest of the
/// block yields.
pub open spec fn commands_then(done: Seq<CommandView>, rest: Parsed<Seq<CommandView>>) -> Parsed<
    Seq<CommandView>,
> {
    Parsed {
        next: rest.next,
        outcome: match rest.outcome {
            Ok(more) => Ok(done + more),
            Err(error) => Err(error),
        },
    }
}

/// The labels read so far, put in front of what reading the rest of the
/// input yields.
pub open spec fn labels_then(done: Seq<LabelView>, rest: Parsed<Seq<LabelView>>) -> Parsed<
    Seq<LabelView>,
> {
    Parsed {
        next: rest.next,
        outcome: match rest.outcome {
            Ok(more) => Ok(done + more),
            Err(error) => Err(error),
        },
    }
}

fn wrong_kind_error(expected: TokenKind, found: &Token) -> (error: Error)
    ensures
        error@ == wrong_kind(expected, found@),
{
    let mut message = String::from_str("Expected ");
    message.append(expected.name());
    message.append(", found ");
    message.append(found.token_kind.name());
    message.append(" `");
    message.append(found.lexeme.as_str());
    message.append("`");
    Error::new(message, found.span)
}

fn wrong_start_error(wanted: &str, found: &Token) -> (error: Error)
    ensures
        error@ == wrong_start(wanted@, found@),
{
    let mut message = String::from_str("Expected ");
    message.append(wanted);
    message.append(", found ");
    message.append(found.token_kind.name());
    Error::new(message, found.span)
}

fn wrong_text_error(wanted: &str, found: &Token) -> (error: Error)
    ensures
        error@ == wrong_text(wanted@, found@),
{
    let mut message = String::from_str("Expected ");
    message.append(wanted);
    message.append(", found ");
    let ghost front = message@;
    message.append("\"");
    message.append(found.lexeme.as_str());
    message.append("\"");
    assert(message@ =~= front + quoted(found.lexeme@));
    Error::new(message, found.span)
}

/// The parser's state: the tokens and the cursor.
pub struct Parser {
    pub tokens: Vec<Token>,
    pub current: usize,
}

impl Parser {
    /// The cursor stands at a token or at the end of the input.
    pub open spec fn wf(&self) -> bool {
        self.current <= self.tokens.len()
    }

    /// The tokens by their views.
    pub open spec fn input(&self) -> Seq<TokenView> {
        token_views(self.tokens@)
    }

    /// A parser at the first of the tokens.
    pub fn new(tokens: Vec<Token>) -> (parser: Self)
        ensures
            parser.wf(),
            parser.tokens == tokens,
            parser.current == 0,
    {
        Self { tokens, current: 0 }
    }

    /// Reads the labels from the cursor to the end of the input. The first
    /// error ends the reading; the cursor is left where the rule that met it
    /// had come to.
    pub fn parse(&mut self) -> (outcome: Result<Program, Error>)
        requires
            old(self).wf(),
        ensures
            final(self).wf(),
            final(self).tokens == old(self).tokens,
            final(self).current == program_at(old(self).input(), old(self).current as int).next,
            match outcome {
                Ok(program) => program_at(old(self).input(), old(self).current as int).outcome == Ok::<
                    ProgramView,
                    ErrorView,
                >(program@),
                Err(error) => program_at(old(self).input(), old(self).current as int).outcome
                    == Err::<ProgramView, ErrorView>(error@),
            },
    {
        let ghost input = self.input();
        let ghost from = self.current as int;
        let mut labels: Vec<Label> = Vec::new();
        while !self.is_at_end()
            invariant
                self.wf(),
                self.tokens == old(self).tokens,
                input == old(self).input(),
                from == old(self).current,
                labels_at(input, from) == labels_then(
                    label_views(labels@),
                    labels_at(input, self.current as int),
                ),
            decreases self.tokens.len() - self.current,
        {
            let ghost here = self.current as int;
            let ghost done = label_views(labels@);
            proof {
                lemma_label_fits(input, here, false);
            }
            match self.parse_label() {
                Ok(label) => {
                    labels.push(label);
                    proof {
                        let rest = labels_at(input, self.current as int);
                        assert(label_views(labels@) =~= done.push(label@));
                        if rest.outcome is Ok {
                            let more = rest.outcome->Ok_0;
                            assert(done + (seq![label@] + more) =~= done.push(label@) + more);
                        }
                    }
                },
                Err(error) => {
                    return Err(error);
                },
            }
        }
        Ok(Program::new(labels))
    }

    /// Reads a `Command` at the cursor: the name of a command, and the
    /// operands that the command takes.
    pub fn parse_command(&mut self) -> (outcome: Result<Command, Error>)
        requires
            old(self).wf(),
        ensures
            final(self).wf(),
            final(self).tokens == old(self).tokens,
            final(self).current == command_at(old(self).input(), old(self).current as int).next,
            match outcome {
                Ok(command) => command_at(old(self).input(), old(self).current as int).outcome == Ok::<
                    CommandView,
                    ErrorView,
                >(command@),
                Err(error) => command_at(old(self).input(), old(self).current as int).outcome
                    == Err::<CommandView, ErrorView>(error@),
            },
    {
        let name = match self.expect(TokenKind::Ident) {
            Ok(token) => token,
            Err(error) => {
                return Err(error);
            },
        };
        let word = name.lexeme.as_str();
        if str_eq(word, "mov") {
            self.parse_mov()
        } else if str_eq(word, "add") {
            self.parse_add()
        } else if str_eq(word, "sub") {
            self.parse_sub()
        } else if str_eq(word, "mul") {
            self.parse_mul()
        } else if str_eq(word, "div") {
            self.parse_div()
        } else if str_eq(word, "pop") {
            self.parse_pop()
        } else if str_eq(word, "call") {
            self.parse_call()
        } else if str_eq(word, "allow") {
            self.parse_allow()
        } else {
            Err(Error::new(String::from_str("unexpected command"), name.span))
        }
    }

    /// Reads `MemArg ',' Expr` at the cursor: a place, a comma and a value.
    pub fn parse_place_and_value(&mut self) -> (outcome: Result<(MemoryFetching, Expr), Error>)
        requires
            old(self).wf(),
        ensures
            final(self).wf(),
            final(self).tokens == old(self).tokens,
            final(self).current == place_and_value_at(
                old(self).input(),
                old(self).current as int,
            ).next,
            match outcome {
                Ok(operands) => place_and_value_at(
                    old(self).input(),
                    old(self).current as int,
                ).outcome == Ok::<(MemoryFetching, ExprView), ErrorView>((operands.0, operands.1@)),
                Err(error) => place_and_value_at(old(self).input(), old(self).current as int).outcome
                    == Err::<(MemoryFetching, ExprView), ErrorView>(error@),
            },
    {
        let place = match self.parse_memory_fetching() {
            Ok(place) => place,
            Err(error) => {
                return Err(error);
            },
        };
        match self.expect(TokenKind::Comma) {
            Ok(_) => {},
            Err(error) => {
                return Err(error);
            },
        }
        match self.parse_expr() {
            Ok(value) => Ok((place, value)),
            Err(error) => Err(error),
        }
    }

    /// Reads the operands of `mov` at the cursor: a place, a comma and a
    /// value.
    pub fn parse_mov(&mut self) -> (outcome: Result<Command, Error>)
        requires
            old(self).wf(),
        ensures
            final(self).wf(),
            final(self).tokens == old(self).tokens,
            final(self).current == place_and_value_at(
                old(self).input(),
                old(self).current as int,
            ).next,
            match outcome {
                Ok(command) => place_and_value_at(
                    old(self).input(),
                    old(self).current as int,
                ).outcome matches Ok(o) && command@ == CommandView::Mov(o.0, o.1),
                Err(error) => place_and_value_at(old(self).input(), old(self).current as int).outcome
                    == Err::<(MemoryFetching, ExprView), ErrorView>(error@),
            },
    {
        match self.parse_place_and_value() {
            Ok(operands) => Ok(Command::Mov(Mov(operands.0, operands.1))),
            Err(error) => Err(error),
        }
    }

    /// Reads the operands of `add` at the cursor: a place, a comma and a
    /// value.
    pub fn parse_add(&mut self) -> (outcome: Result<Command, Error>)
        requires
            old(self).wf(),
        ensures
            final(self).wf(),
            final(self).tokens == old(self).tokens,
            final(self).current == place_and_value_at(
                old(self).input(),
                old(self).current as int,
            ).next,
            match outcome {
                Ok(command) => place_and_value_at(
                    old(self).input(),
                    old(self).current as int,
                ).outcome matches Ok(o) && command@ == CommandView::Add(o.0, o.1),
                Err(error) => place_and_value_at(old(self).input(), old(self).current as int).outcome
                    == Err::<(MemoryFetching, ExprView), ErrorView>(error@),
            },
    {
        match self.parse_place_and_value() {
            Ok(operands) => Ok(Command::Add(Add(operands.0, operands.1))),
            Err(error) => Err(error),
        }
    }

    /// Reads the operands of `sub` at the cursor: a place, a comma and a
    /// value.
    pub fn parse_sub(&mut self) -> (outcome: Result<Command, Error>)
        requires
            old(self).wf(),
        ensures
            final(self).wf(),
            final(self).tokens == old(self).tokens,
            final(self).current == place_and_value_at(
                old(self).input(),
                old(self).current as int,
            ).next,
            match outcome {
                Ok(command) => place_and_value_at(
                    old(self).input(),
                    old(self).current as int,
                ).outcome matches Ok(o) && command@ == CommandView::Sub(o.0, o.1),
                Err(error) => place_and_value_at(old(self).input(), old(self).current as int).outcome
                    == Err::<(MemoryFetching, ExprView), ErrorView>(error@),
            },
    {
        match self.parse_place_and_value() {
            Ok(operands) => Ok(Command::Sub(Sub(operands.0, operands.1))),
            Err(error) => Err(error),
        }
    }

    /// Reads the operand of `mul` at the cursor: a place.
    pub fn parse_mul(&mut self) -> (outcome: Result<Command, Error>)
        requires
            old(self).wf(),
        ensures
            final(self).wf(),
            final(self).tokens == old(self).tokens,
            final(self).current == memory_at(old(self).input(), old(self).current as int).next,
            match outcome {
                Ok(command) => memory_at(old(self).input(), old(self).current as int).outcome matches Ok(
                    p,
                ) && command@ == CommandView::Mul(p),
                Err(error) => memory_at(old(self).input(), old(self).current as int).outcome == Err::<
                    MemoryFetching,
                    ErrorView,
                >(error@),
            },
    {
        match self.parse_memory_fetching() {
            Ok(place) => Ok(Command::Mul(Mul(place))),
            Err(error) => Err(error),
        }
    }

    /// Reads the operands of `div` at the cursor: a place, a comma and a
    /// value.
    pub fn parse_div(&mut self) -> (outcome: Result<Command, Error>)
        requires
            old(self).wf(),
        ensures
            final(self).wf(),
            final(self).tokens == old(self).tokens,
            final(self).current == place_and_value_at(
                old(self).input(),
                old(self).current as int,
            ).next,
            match outcome {
                Ok(command) => place_and_value_at(
                    old(self).input(),
                    old(self).current as int,
                ).outcome matches Ok(o) && command@ == CommandView::Div(o.0, o.1),
                Err(error) => place_and_value_at(old(self).input(), old(self).current as int).outcome
                    == Err::<(MemoryFetching, ExprView), ErrorView>(error@),
            },
    {
        match self.parse_place_and_value() {
            Ok(operands) => Ok(Command::Div(Div(operands.0, operands.1))),
            Err(error) => Err(error),
        }
    }

    /// Reads the operand of `pop` at the cursor: a place.
    pub fn parse_pop(&mut self) -> (outcome: Result<Command, Error>)
        requires
            old(self).wf(),
        ensures
            final(self).wf(),
            final(self).tokens == old(self).tokens,
            final(self).current == memory_at(old(self).input(), old(self).current as int).next,
            match outcome {
                Ok(command) => memory_at(old(self).input(), old(self).current as int).outcome matches Ok(
                    p,
                ) && command@ == CommandView::Pop(p),
                Err(error) => memory_at(old(self).input(), old(self).current as int).outcome == Err::<
                    MemoryFetching,
                    ErrorView,
                >(error@),
            },
    {
        match self.parse_memory_fetching() {
            Ok(place) => Ok(Command::Pop(Pop(place))),
            Err(error) => Err(error),
        }
    }

    /// Reads the operand of `call` at the cursor: a dollar and the name of a
    /// label.
    pub fn parse_call(&mut self) -> (outcome: Result<Command, Error>)
        requires
            old(self).wf(),
        ensures
            final(self).wf(),
            final(self).tokens == old(self).tokens,
            final(self).current == label_name_at(old(self).input(), old(self).current as int).next,
            match outcome {
                Ok(command) => label_name_at(
                    old(self).input(),
                    old(self).current as int,
                ).outcome matches Ok(l) && command@ == CommandView::Call(l.0, l.1),
                Err(error) => label_name_at(old(self).input(), old(self).current as int).outcome
                    == Err::<(Seq<char>, Span), ErrorView>(error@),
            },
    {
        match self.parse_label_name() {
            Ok(label) => Ok(Command::Call(Call(label.0, label.1))),
            Err(error) => Err(error),
        }
    }

    /// Reads the operands of `allow` at the cursor: two values.
    pub fn parse_allow(&mut self) -> (outcome: Result<Command, Error>)
        requires
            old(self).wf(),
        ensures
            final(self).wf(),
            final(self).tokens == old(self).tokens,
            final(self).current == two_values_at(old(self).input(), old(self).current as int).next,
            match outcome {
                Ok(command) => two_values_at(
                    old(self).input(),
                    old(self).current as int,
                ).outcome matches Ok(o) && command@ == CommandView::Allow(o.0, o.1),
                Err(error) => two_values_at(old(self).input(), old(self).current as int).outcome
                    == Err::<(ExprView, ExprView), ErrorView>(error@),
            },
    {
        let to = match self.parse_expr() {
            Ok(value) => value,
            Err(error) => {
                return Err(error);
            },
        };
        match self.parse_expr() {
            Ok(from) => Ok(Command::Allow(Allow(to, from))),
            Err(error) => Err(error),
        }
    }

    /// Reads a `Register` at the cursor: an identifier that is the name of
    /// one of the sixteen registers. The token is taken whatever it is.
    pub fn parse_register(&mut self) -> (outcome: Result<Register, Error>)
        requires
            old(self).wf(),
        ensures
            final(self).wf(),
            final(self).tokens == old(self).tokens,
            final(self).current == register_at(old(self).input(), old(self).current as int).next,
            match outcome {
                Ok(register) => register_at(old(self).input(), old(self).current as int).outcome
                    == Ok::<Register, ErrorView>(register),
                Err(error) => register_at(old(self).input(), old(self).current as int).outcome
                    == Err::<Register, ErrorView>(error@),
            },
    {
        let token = self.advance();
        match token.token_kind {
            TokenKind::Ident => {},
            _ => {
                return Err(wrong_start_error("ident", &token));
            },
        }
        match Register::from_name(token.lexeme.as_str()) {
            Some(register) => Ok(register),
            None => Err(wrong_text_error("register", &token)),
        }
    }

    /// Reads a `MemArg` at the cursor: a register, or a `#` and an address.
    /// A token that starts neither is left where it is.
    pub fn parse_memory_fetching(&mut self) -> (outcome: Result<MemoryFetching, Error>)
        requires
            old(self).wf(),
        ensures
            final(self).wf(),
            final(self).tokens == old(self).tokens,
            final(self).current == memory_at(old(self).input(), old(self).current as int).next,
            match outcome {
                Ok(place) => memory_at(old(self).input(), old(self).current as int).outcome == Ok::<
                    MemoryFetching,
                    ErrorView,
                >(place),
                Err(error) => memory_at(old(self).input(), old(self).current as int).outcome == Err::<
                    MemoryFetching,
                    ErrorView,
                >(error@),
            },
    {
        let token = self.peek();
        match token.token_kind {
            TokenKind::Ident => match self.parse_register() {
                Ok(register) => Ok(MemoryFetching::Register(register)),
                Err(error) => Err(error),
            },
            TokenKind::Hashtag => match self.parse_addr() {
                Ok(address) => Ok(MemoryFetching::Addr(address)),
                Err(error) => Err(error),
            },
            _ => Err(wrong_start_error("ident or hashtag", &token)),
        }
    }

    /// Reads a `Label` at the cursor: a name, a colon, and the commands up
    /// to the end of the input or to the first command that a whole label
    /// follows.
    pub fn parse_label(&mut self) -> (outcome: Result<Label, Error>)
        requires
            old(self).wf(),
        ensures
            final(self).wf(),
            final(self).tokens == old(self).tokens,
            final(self).current == label_at(old(self).input(), old(self).current as int).next,
            match outcome {
                Ok(label) => label_at(old(self).input(), old(self).current as int).outcome == Ok::<
                    LabelView,
                    ErrorView,
                >(label@),
                Err(error) => label_at(old(self).input(), old(self).current as int).outcome == Err::<
                    LabelView,
                    ErrorView,
                >(error@),
            },
        decreases old(self).tokens.len() - old(self).current,
    {
        let ghost input = self.input();
        let name = match self.expect(TokenKind::Ident) {
            Ok(token) => token,
            Err(error) => {
                return Err(error);
            },
        };
        match self.expect(TokenKind::Colon) {
            Ok(_) => {},
            Err(error) => {
                return Err(error);
            },
        }
        let ghost from = self.current as int;
        let mut commands: Vec<Command> = Vec::new();
        while !self.is_at_end()
            invariant_except_break
                commands_at(input, from) == commands_then(
                    command_views(commands@),
                    commands_at(input, self.current as int),
                ),
            invariant
                self.wf(),
                self.tokens == old(self).tokens,
                input == old(self).input(),
                old(self).current < from <= self.current,
                label_at(input, old(self).current as int) == (Parsed {
                    next: commands_at(input, from).next,
                    outcome: match commands_at(input, from).outcome {
                        Ok(program) => Ok::<LabelView, ErrorView>(
                            LabelView { name: name.lexeme@, program },
                        ),
                        Err(error) => Err::<LabelView, ErrorView>(error),
                    },
                }),
            ensures
                commands_at(input, from) == (Parsed {
                    next: self.current as int,
                    outcome: Ok::<Seq<CommandView>, ErrorView>(command_views(commands@)),
                }),
            decreases self.tokens.len() - self.current,
        {
            let ghost here = self.current as int;
            let ghost done = command_views(commands@);
            proof {
                lemma_skip_newlines_fits(input, here);
                lemma_command_advances(input, skip_newlines(input, here));
            }
            self.ignore_newlines();
            let command = match self.parse_command() {
                Ok(command) => command,
                Err(error) => {
                    return Err(error);
                },
            };
            commands.push(command);
            let checkpoint = self.current;
            let ahead = self.parse_label();
            self.current = checkpoint;
            proof {
                let c = commands@.last()@;
                assert(command_views(commands@) =~= done.push(c));
                assert(done + seq![c] =~= done.push(c));
                let rest = commands_at(input, checkpoint as int);
                if rest.outcome is Ok {
                    let more = rest.outcome->Ok_0;
                    assert(done + (seq![c] + more) =~= done.push(c) + more);
                }
            }
            if ahead.is_ok() {
                break;
            }
        }
        Ok(Label::new(name.lexeme, commands))
    }

    /// Reads an `Int` at the cursor: a run of digits whose value fits in 32
    /// bits with a sign. The token is taken whatever it is.
    pub fn parse_int(&mut self) -> (outcome: Result<Expr, Error>)
        requires
            old(self).wf(),
        ensures
            final(self).wf(),
            final(self).tokens == old(self).tokens,
            final(self).current == int_at(old(self).input(), old(self).current as int).next,
            match outcome {
                Ok(value) => int_at(old(self).input(), old(self).current as int).outcome == Ok::<
                    ExprView,
                    ErrorView,
                >(value@),
                Err(error) => int_at(old(self).input(), old(self).current as int).outcome == Err::<
                    ExprView,
                    ErrorView,
                >(error@),
            },
    {
        let token = self.advance();
        match token.token_kind {
            TokenKind::Int => {},
            _ => {
                return Err(wrong_start_error("int", &token));
            },
        }
        match parse_number(token.lexeme.as_str(), 0x7fff_ffff) {
            Some(value) => Ok(Expr::Int(value as i32)),
            None => Err(wrong_text_error("int", &token)),
        }
    }

    /// Reads an `Expr` at the cursor: a number, a dollar and the name of a
    /// label, or a place. A token that starts none of them is left where it
    /// is.
    pub fn parse_expr(&mut self) -> (outcome: Result<Expr, Error>)
        requires
            old(self).wf(),
        ensures
            final(self).wf(),
            final(self).tokens == old(self).tokens,
            final(self).current == expr_at(old(self).input(), old(self).current as int).next,
            match outcome {
                Ok(value) => expr_at(old(self).input(), old(self).current as int).outcome == Ok::<
                    ExprView,
                    ErrorView,
                >(value@),
                Err(error) => expr_at(old(self).input(), old(self).current as int).outcome == Err::<
                    ExprView,
                    ErrorView,
                >(error@),
            },
    {
        let token = self.peek();
        match token.token_kind {
            TokenKind::Int => self.parse_int(),
            TokenKind::Dollar => match self.parse_label_name() {
                Ok(label) => Ok(Expr::Label(label.0, label.1)),
                Err(error) => Err(error),
            },
            TokenKind::Hashtag | TokenKind::Ident => match self.parse_memory_fetching() {
                Ok(place) => Ok(Expr::Memory(place)),
                Err(error) => Err(error),
            },
            _ => Err(wrong_start_error("int, ident or hashtag", &token)),
        }
    }

    /// Reads `'#' Int` with the cursor at the `#`: the token at the cursor
    /// is passed over, and the number behind it has to fit in four bytes.
    pub fn parse_addr(&mut self) -> (outcome: Result<u32, Error>)
        requires
            old(self).wf(),
        ensures
            final(self).wf(),
            final(self).tokens == old(self).tokens,
            final(self).current == address_at(old(self).input(), old(self).current as int).next,
            match outcome {
                Ok(address) => address_at(old(self).input(), old(self).current as int).outcome
                    == Ok::<u32, ErrorView>(address),
                Err(error) => address_at(old(self).input(), old(self).current as int).outcome
                    == Err::<u32, ErrorView>(error@),
            },
    {
        self.advance();
        let token = match self.expect(TokenKind::Int) {
            Ok(token) => token,
            Err(error) => {
                return Err(error);
            },
        };
        match parse_number(token.lexeme.as_str(), 0xffff_ffff) {
            Some(value) => Ok(value),
            None => Err(wrong_text_error("address", &token)),
        }
    }

    /// Reads `'$' Ident` at the cursor: the name of a label, and where it
    /// stands.
    pub fn parse_label_name(&mut self) -> (outcome: Result<(String, Span), Error>)
        requires
            old(self).wf(),
        ensures
            final(self).wf(),
            final(self).tokens == old(self).tokens,
            final(self).current == label_name_at(old(self).input(), old(self).current as int).next,
            match outcome {
                Ok(label) => label_name_at(old(self).input(), old(self).current as int).outcome
                    == Ok::<(Seq<char>, Span), ErrorView>((label.0@, label.1)),
                Err(error) => label_name_at(old(self).input(), old(self).current as int).outcome
                    == Err::<(Seq<char>, Span), ErrorView>(error@),
            },
    {
        match self.expect(TokenKind::Dollar) {
            Ok(_) => {},
            Err(error) => {
                return Err(error);
            },
        }
        match self.expect(TokenKind::Ident) {
            Ok(token) => Ok((token.lexeme, token.span)),
            Err(error) => Err(error),
        }
    }

    /// Takes the token at the cursor. At the end of the input the cursor
    /// stays, and the end-of-input token is handed out.
    pub fn advance(&mut self) -> (token: Token)
        requires
            old(self).wf(),
        ensures
            final(self).wf(),
            final(self).tokens == old(self).tokens,
            final(self).current == after(old(self).input(), old(self).current as int),
            token@ == token_or_eof(old(self).input(), old(self).current as int),
    {
        let token = self.peek();
        if !self.is_at_end() {
            self.current += 1;
        }
        token
    }

    /// The token at the cursor, or the end-of-input token.
    pub fn peek(&self) -> (token: Token)
        requires
            self.wf(),
        ensures
            token@ == token_or_eof(self.input(), self.current as int),
    {
        if self.current < self.tokens.len() {
            self.tokens[self.current].clone()
        } else {
            let end = if self.tokens.len() == 0 {
                0
            } else {
                self.tokens[self.tokens.len() - 1].span.end
            };
            Token { token_kind: TokenKind::Eof, lexeme: String::new(), span: Span::new(end, end) }
        }
    }

    /// Whether the cursor stands behind the last token.
    pub fn is_at_end(&self) -> (ended: bool)
        ensures
            ended == (self.current >= self.tokens.len()),
    {
        self.current >= self.tokens.len()
    }

    /// Takes the token at the cursor, which has to be of the given kind.
    pub fn expect(&mut self, token_kind: TokenKind) -> (outcome: Result<Token, Error>)
        requires
            old(self).wf(),
        ensures
            final(self).wf(),
            final(self).tokens == old(self).tokens,
            final(self).current == expect_at(
                old(self).input(),
                old(self).current as int,
                token_kind,
            ).next,
            match outcome {
                Ok(token) => expect_at(
                    old(self).input(),
                    old(self).current as int,
                    token_kind,
                ).outcome == Ok::<TokenView, ErrorView>(token@),
                Err(error) => expect_at(
                    old(self).input(),
                    old(self).current as int,
                    token_kind,
                ).outcome == Err::<TokenView, ErrorView>(error@),
            },
    {
        let token = self.advance();
        if token.token_kind == token_kind {
            Ok(token)
        } else {
            Err(wrong_kind_error(token_kind, &token))
        }
    }

    /// Moves the cursor over the newline tokens that stand at it.
    pub fn ignore_newlines(&mut self)
        requires
            old(self).wf(),
        ensures
            final(self).wf(),
            final(self).tokens == old(self).tokens,
            final(self).current == skip_newlines(old(self).input(), old(self).current as int),
    {
        while self.current < self.tokens.len() && self.tokens[self.current].token_kind
            == TokenKind::Newline
            invariant
                self.wf(),
                self.tokens == old(self).tokens,
                skip_newlines(self.input(), self.current as int) == skip_newlines(
                    old(self).input(),
                    old(self).current as int,
                ),
            decreases self.tokens.len() - self.current,
        {
            self.current += 1;
        }
    }
}

/// The names of the registers are sixteen different texts, so that each
/// name tells its register.
pub proof fn lemma_register_names_differ(register: Register)
    ensures
        Register::spec_from_name(register.spec_name()) == Some(register),
        is_ascii_chars(register.spec_name()),
        2 <= register.spec_name().len() <= 3,
        register.spec_name()[0] == 'r',
        forall|i: int|
            1 <= i < register.spec_name().len() ==> {
                let c = #[trigger] register.spec_name()[i];
                ('0' <= c && c <= '9') || ('a' <= c && c <= 'z')
            },
{
    reveal_strlit("r1");
    reveal_strlit("r2");
    reveal_strlit("r3");
    reveal_strlit("r4");
    reveal_strlit("r5");
    reveal_strlit("r6");
    reveal_strlit("r7");
    reveal_strlit("r8");
    reveal_strlit("r9");
    reveal_strlit("r10");
    reveal_strlit("r11");
    reveal_strlit("r12");
    reveal_strlit("r13");
    reveal_strlit("r14");
    reveal_strlit("r15");
    reveal_strlit("rbp");
    assert("r1"@ =~= seq!['r', '1']);
    assert("r2"@ =~= seq!['r', '2']);
    assert("r3"@ =~= seq!['r', '3']);
    assert("r4"@ =~= seq!['r', '4']);
    assert("r5"@ =~= seq!['r', '5']);
    assert("r6"@ =~= seq!['r', '6']);
    assert("r7"@ =~= seq!['r', '7']);
    assert("r8"@ =~= seq!['r', '8']);
    assert("r9"@ =~= seq!['r', '9']);
    assert("r10"@ =~= seq!['r', '1', '0']);
    assert("r11"@ =~= seq!['r', '1', '1']);
    assert("r12"@ =~= seq!['r', '1', '2']);
    assert("r13"@ =~= seq!['r', '1', '3']);
    assert("r14"@ =~= seq!['r', '1', '4']);
    assert("r15"@ =~= seq!['r', '1', '5']);
    assert("rbp"@ =~= seq!['r', 'b', 'p']);
}

/// An identifier with the name of a register, read as a place, gives that
/// register, and the one token is taken. Read as a value it gives the
/// register as a place.
pub proof fn lemma_register_token_gives_register(
    tokens: Seq<TokenView>,
    pos: int,
    register: Register,
)
    requires
        0 <= pos < tokens.len(),
        tokens[pos].kind == TokenKind::Ident,
        tokens[pos].lexeme == register.spec_name(),
    ensures
        memory_at(tokens, pos) == (Parsed {
            next: pos + 1,
            outcome: Ok::<MemoryFetching, ErrorView>(MemoryFetching::Register(register)),
        }),
        expr_at(tokens, pos) == (Parsed {
            next: pos + 1,
            outcome: Ok::<ExprView, ErrorView>(ExprView::Memory(MemoryFetching::Register(register))),
        }),
{
    lemma_register_names_differ(register);
}

/// The name of each register, scanned and read as a place, gives that
/// register: the name is one identifier, and the place that the parser
/// reads from it is the register that has the name.
pub proof fn lemma_register_name_gives_register(register: Register)
    ensures
        ({
            let name = register.spec_name();
            let scanned = scan(encode_utf8(name), 0);
            &&& scanned.error is None
            &&& scanned.tokens.len() == 1
            &&& scanned.tokens[0].kind == TokenKind::Ident
            &&& scanned.tokens[0].lexeme == name
            &&& memory_at(scanned.tokens, 0).outcome == Ok::<MemoryFetching, ErrorView>(
                MemoryFetching::Register(register),
            )
            &&& memory_at(scanned.tokens, 0).next == 1
        }),
{
    let name = register.spec_name();
    let bytes = encode_utf8(name);
    lemma_register_names_differ(register);
    is_ascii_chars_encode_utf8(name);
    assert(is_identifier(bytes)) by {
        assert forall|i: int| 0 <= i < bytes.len() implies is_ident_byte(
            #[trigger] bytes[i],
        ) by {
            assert(bytes[i] == name[i] as u8);
        }
        assert(bytes[0] == name[0] as u8);
    }
    lemma_identifier_scans_alone(bytes);
    assert(bytes.subrange(0, bytes.len() as int) =~= bytes);
    encode_utf8_decode_utf8(name);
    lemma_register_token_gives_register(scan(bytes, 0).tokens, 0, register);
}

/// Each register has a code from 1 to 16, in the order in which the
/// registers are named, and the code tells the register.
pub proof fn lemma_register_codes(register: Register)
    ensures
        1 <= register.spec_code() <= 16,
        Register::spec_from_code(register.spec_code() as u8) == Some(register),
        Register::R1.spec_code() == 1,
        Register::R2.spec_code() == 2,
        Register::R3.spec_code() == 3,
        Register::R4.spec_code() == 4,
        Register::R5.spec_code() == 5,
        Register::R6.spec_code() == 6,
        Register::R7.spec_code() == 7,
        Register::R8.spec_code() == 8,
        Register::R9.spec_code() == 9,
        Register::R10.spec_code() == 10,
        Register::R11.spec_code() == 11,
        Register::R12.spec_code() == 12,
        Register::R13.spec_code() == 13,
        Register::R14.spec_code() == 14,
        Register::R15.spec_code() == 15,
        Register::Rbp.spec_code() == 16,
{
}

/// True when the span of every token can be cut out of the text with the
/// given bytes.
pub open spec fn token_spans_fit(tokens: Seq<TokenView>, bytes: Seq<u8>) -> bool {
    forall|i: int| 0 <= i < tokens.len() ==> (#[trigger] tokens[i]).span.fits(bytes)
}

/// The token that the parser sees at a place has a span that fits, the
/// end-of-input token too.
pub proof fn lemma_seen_token_fits(tokens: Seq<TokenView>, pos: int, bytes: Seq<u8>)
    requires
        valid_utf8(bytes),
        token_spans_fit(tokens, bytes),
    ensures
        token_or_eof(tokens, pos).span.fits(bytes),
{
    is_char_boundary_start_end_of_seq(bytes);
}

/// What reading a place yields holds only spans that fit.
pub proof fn lemma_memory_span_fits(tokens: Seq<TokenView>, pos: int, bytes: Seq<u8>)
    requires
        valid_utf8(bytes),
        token_spans_fit(tokens, bytes),
    ensures
        memory_at(tokens, pos).outcome matches Err(error) ==> error.span.fits(bytes),
{
    lemma_seen_token_fits(tokens, pos, bytes);
    lemma_seen_token_fits(tokens, after(tokens, pos), bytes);
}

/// What reading the name of a label yields holds only spans that fit.
pub proof fn lemma_label_name_span_fits(tokens: Seq<TokenView>, pos: int, bytes: Seq<u8>)
    requires
        valid_utf8(bytes),
        token_spans_fit(tokens, bytes),
    ensures
        match label_name_at(tokens, pos).outcome {
            Ok(label) => label.1.fits(bytes),
            Err(error) => error.span.fits(bytes),
        },
{
    lemma_seen_token_fits(tokens, pos, bytes);
    lemma_seen_token_fits(tokens, after(tokens, pos), bytes);
}

/// What reading a value yields holds only spans that fit.
pub proof fn lemma_expr_span_fits(tokens: Seq<TokenView>, pos: int, bytes: Seq<u8>)
    requires
        valid_utf8(bytes),
        token_spans_fit(tokens, bytes),
    ensures
        match expr_at(tokens, pos).outcome {
            Ok(value) => expr_span_fits(value, bytes),
            Err(error) => error.span.fits(bytes),
        },
{
    lemma_seen_token_fits(tokens, pos, bytes);
    lemma_memory_span_fits(tokens, pos, bytes);
    lemma_label_name_span_fits(tokens, pos, bytes);
}

/// What reading a place, a comma and a value yields holds only spans that
/// fit.
pub proof fn lemma_place_and_value_span_fits(tokens: Seq<TokenView>, pos: int, bytes: Seq<u8>)
    requires
        valid_utf8(bytes),
        token_spans_fit(tokens, bytes),
    ensures
        match place_and_value_at(tokens, pos).outcome {
            Ok(operands) => expr_span_fits(operands.1, bytes),
            Err(error) => error.span.fits(bytes),
        },
{
    lemma_memory_span_fits(tokens, pos, bytes);
    let place = memory_at(tokens, pos);
    lemma_seen_token_fits(tokens, place.next, bytes);
    lemma_expr_span_fits(tokens, after(tokens, place.next), bytes);
}

/// What reading two values yields holds only spans that fit.
pub proof fn lemma_two_values_span_fits(tokens: Seq<TokenView>, pos: int, bytes: Seq<u8>)
    requires
        valid_utf8(bytes),
        token_spans_fit(tokens, bytes),
    ensures
        match two_values_at(tokens, pos).outcome {
            Ok(operands) => expr_span_fits(operands.0, bytes) && expr_span_fits(operands.1, bytes),
            Err(error) => error.span.fits(bytes),
        },
{
    lemma_expr_span_fits(tokens, pos, bytes);
    lemma_expr_span_fits(tokens, expr_at(tokens, pos).next, bytes);
}

/// What reading a command yields holds only spans that fit.
pub proof fn lemma_command_span_fits(tokens: Seq<TokenView>, pos: int, bytes: Seq<u8>)
    requires
        valid_utf8(bytes),
        token_spans_fit(tokens, bytes),
    ensures
        match command_at(tokens, pos).outcome {
            Ok(command) => command_spans_fit(command, bytes),
            Err(error) => error.span.fits(bytes),
        },
{
    lemma_seen_token_fits(tokens, pos, bytes);
    let at = after(tokens, pos);
    lemma_place_and_value_span_fits(tokens, at, bytes);
    lemma_memory_span_fits(tokens, at, bytes);
    lemma_label_name_span_fits(tokens, at, bytes);
    lemma_two_values_span_fits(tokens, at, bytes);
}

/// What reading a block or a label yields holds only spans that fit.
pub proof fn lemma_label_span_fits(tokens: Seq<TokenView>, pos: int, bytes: Seq<u8>, block: bool)
    requires
        valid_utf8(bytes),
        token_spans_fit(tokens, bytes),
        0 <= pos <= tokens.len(),
    ensures
        block ==> match commands_at(tokens, pos).outcome {
            Ok(commands) => block_spans_fit(commands, bytes),
            Err(error) => error.span.fits(bytes),
        },
        !block ==> match label_at(tokens, pos).outcome {
            Ok(label) => block_spans_fit(label.program, bytes),
            Err(error) => error.span.fits(bytes),
        },
    decreases tokens.len() - pos, (if block { 0int } else { 1int }),
{
    if block {
        if pos < tokens.len() {
            let at = skip_newlines(tokens, pos);
            lemma_skip_newlines_fits(tokens, pos);
            lemma_command_advances(tokens, at);
            lemma_command_span_fits(tokens, at, bytes);
            let command = command_at(tokens, at);
            if command.outcome is Ok && !(label_at(tokens, command.next).outcome is Ok) {
                lemma_label_span_fits(tokens, command.next, bytes, true);
            }
        }
    } else {
        lemma_seen_token_fits(tokens, pos, bytes);
        let name = expect_at(tokens, pos, TokenKind::Ident);
        lemma_seen_token_fits(tokens, name.next, bytes);
        let colon = expect_at(tokens, name.next, TokenKind::Colon);
        if name.outcome is Ok && colon.outcome is Ok {
            lemma_label_span_fits(tokens, colon.next, bytes, true);
        }
    }
}

/// What parsing yields holds only spans that fit: the error, and every
/// place that the program remembers.
pub proof fn lemma_program_span_fits(tokens: Seq<TokenView>, pos: int, bytes: Seq<u8>)
    requires
        valid_utf8(bytes),
        token_spans_fit(tokens, bytes),
        0 <= pos <= tokens.len(),
    ensures
        match labels_at(tokens, pos).outcome {
            Ok(labels) => program_spans_fit(labels, bytes),
            Err(error) => error.span.fits(bytes),
        },
    decreases tokens.len() - pos,
{
    if pos < tokens.len() {
        lemma_label_span_fits(tokens, pos, bytes, false);
        lemma_label_fits(tokens, pos, false);
        let label = label_at(tokens, pos);
        if label.outcome is Ok {
            lemma_program_span_fits(tokens, label.next, bytes);
        }
    }
}

/// A program that was read took every token: the cursor is left at the
/// end of the input.
pub proof fn lemma_program_takes_every_token(tokens: Seq<TokenView>, pos: int)
    requires
        0 <= pos <= tokens.len(),
        program_at(tokens, pos).outcome is Ok,
    ensures
        program_at(tokens, pos).next == tokens.len(),
    decreases tokens.len() - pos,
{
    if pos < tokens.len() {
        lemma_label_fits(tokens, pos, false);
        lemma_program_takes_every_token(tokens, label_at(tokens, pos).next);
    }
}

} // verus!
