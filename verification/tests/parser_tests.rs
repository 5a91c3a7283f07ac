use popper_asm::ast::{
    Add, Allow, Call, Command, Div, Expr, Label, MemoryFetching, Mov, Mul, Pop, Program, Register,
    Sub,
};
use popper_asm::lexer::{Lexer, Token, TokenKind};
use popper_asm::parser::{Error, Parser};
use popper_asm::span::Span;

fn parse(source: &str) -> Result<Program, Error> {
    let mut lexer = Lexer::new(source);
    lexer.scan_tokens().unwrap();
    let mut parser = Parser::new(lexer.get_tokens());
    parser.parse()
}

fn token(kind: TokenKind, lexeme: &str, start: usize) -> Token {
    Token {
        token_kind: kind,
        lexeme: lexeme.to_string(),
        span: Span::new(start, start + lexeme.len()),
    }
}

fn reg(register: Register) -> MemoryFetching {
    MemoryFetching::Register(register)
}

#[test]
fn register_names_give_their_registers() {
    let all = [
        ("r1", Register::R1, 1),
        ("r2", Register::R2, 2),
        ("r3", Register::R3, 3),
        ("r4", Register::R4, 4),
        ("r5", Register::R5, 5),
        ("r6", Register::R6, 6),
        ("r7", Register::R7, 7),
        ("r8", Register::R8, 8),
        ("r9", Register::R9, 9),
        ("r10", Register::R10, 10),
        ("r11", Register::R11, 11),
        ("r12", Register::R12, 12),
        ("r13", Register::R13, 13),
        ("r14", Register::R14, 14),
        ("r15", Register::R15, 15),
        ("rbp", Register::Rbp, 16),
    ];
    for (name, register, code) in all {
        let program = parse(&format!("main: pop {}", name)).unwrap();
        assert_eq!(
            program,
            Program::new(vec![Label::new(
                "main".to_string(),
                vec![Command::Pop(Pop(MemoryFetching::Register(register)))]
            )])
        );
        assert_eq!(register.code(), code);
        assert_eq!(register.name(), name);
        assert_eq!(Register::from_name(name), Some(register));
        assert_eq!(Register::from_code(code as u8), Some(register));
    }
}

#[test]
fn register_codes_outside_the_range_name_no_register() {
    assert_eq!(Register::from_code(0), None);
    assert_eq!(Register::from_code(17), None);
    assert_eq!(Register::from_code(255), None);
    assert_eq!(Register::from_name("r0"), None);
    assert_eq!(Register::from_name("r16"), None);
    assert_eq!(Register::from_name("R1"), None);
    assert_eq!(Register::from_name(""), None);
}

#[test]
fn every_command_is_read() {
    let source = "main:\n mov r1, 2\n add r2, r3\n sub #7, $main\n mul r4\n div rbp, #9\n pop #0\n call $main\n allow 1 r15\n";
    let program = parse(source).unwrap();
    let main_in_sub = source.find("$main").unwrap() + 1;
    let main_in_call = source.rfind("$main").unwrap() + 1;
    assert_eq!(
        program,
        Program::new(vec![Label::new(
            "main".to_string(),
            vec![
                Command::Mov(Mov(reg(Register::R1), Expr::Int(2))),
                Command::Add(Add(reg(Register::R2), Expr::Memory(reg(Register::R3)))),
                Command::Sub(Sub(
                    MemoryFetching::Addr(7),
                    Expr::Label("main".to_string(), Span::new(main_in_sub, main_in_sub + 4))
                )),
                Command::Mul(Mul(reg(Register::R4))),
                Command::Div(Div(reg(Register::Rbp), Expr::Memory(MemoryFetching::Addr(9)))),
                Command::Pop(Pop(MemoryFetching::Addr(0))),
                Command::Call(Call(
                    "main".to_string(),
                    Span::new(main_in_call, main_in_call + 4)
                )),
                Command::Allow(Allow(Expr::Int(1), Expr::Memory(reg(Register::R15)))),
            ]
        )])
    );
}

#[test]
fn a_label_ends_where_the_next_one_can_be_read() {
    let program = parse("main: mov r1, 2 call $sum sum: add r1, r4 mul r1 end: pop r1").unwrap();
    assert_eq!(program.labels.len(), 3);
    assert_eq!(program.labels[0].name, "main");
    assert_eq!(program.labels[0].program.len(), 2);
    assert_eq!(program.labels[1].name, "sum");
    assert_eq!(program.labels[1].program.len(), 2);
    assert_eq!(program.labels[2].name, "end");
    assert_eq!(program.labels[2].program.len(), 1);
}

#[test]
fn no_tokens_are_an_empty_program() {
    assert_eq!(parse("").unwrap(), Program::new(vec![]));
    assert_eq!(parse(" \n\t ").unwrap(), Program::new(vec![]));
    let mut parser = Parser::new(vec![]);
    assert_eq!(parser.parse().unwrap(), Program::new(vec![]));
    assert_eq!(parser.current, 0);
}

#[test]
fn the_last_label_may_be_empty() {
    assert_eq!(
        parse("main:").unwrap(),
        Program::new(vec![Label::new("main".to_string(), vec![])])
    );
    let program = parse("main: mul r1 end:").unwrap();
    assert_eq!(program.labels.len(), 2);
    assert!(program.labels[1].program.is_empty());
}

#[test]
fn an_empty_label_before_another_is_an_error() {
    let error = parse("a: b: mul r1").unwrap_err();
    assert_eq!(error.message, "unexpected command");
    assert_eq!(error.span, Span::new(3, 4));
}

#[test]
fn a_label_needs_its_colon() {
    let error = parse("main mov r1, 1").unwrap_err();
    assert_eq!(error.message, "Expected Colon, found Ident `mov`");
    assert_eq!(error.span, Span::new(5, 8));
}

#[test]
fn a_program_starts_with_a_label() {
    let error = parse(": mov r1, 1").unwrap_err();
    assert_eq!(error.message, "Expected Ident, found Colon `:`");
    assert_eq!(error.span, Span::new(0, 1));
}

#[test]
fn mov_needs_its_comma() {
    let error = parse("main: mov r1 1").unwrap_err();
    assert_eq!(error.message, "Expected Comma, found Int `1`");
    assert_eq!(error.span, Span::new(13, 14));
    for name in ["add", "sub", "div"] {
        let error = parse(&format!("main: {} r1 1", name)).unwrap_err();
        assert_eq!(error.message, "Expected Comma, found Int `1`");
    }
}

#[test]
fn unknown_command_is_an_error() {
    let error = parse("main: jmp r1").unwrap_err();
    assert_eq!(error.message, "unexpected command");
    assert_eq!(error.span, Span::new(6, 9));
    let error = parse("main: MOV r1, 1").unwrap_err();
    assert_eq!(error.message, "unexpected command");
}

#[test]
fn unknown_register_is_an_error() {
    let error = parse("main: mul r16").unwrap_err();
    assert_eq!(error.message, "Expected register, found \"r16\"");
    assert_eq!(error.span, Span::new(10, 13));
    let error = parse("main: mov r1, foo").unwrap_err();
    assert_eq!(error.message, "Expected register, found \"foo\"");
    assert_eq!(error.span, Span::new(14, 17));
}

#[test]
fn a_place_is_a_register_or_an_address() {
    let error = parse("main: mul 5").unwrap_err();
    assert_eq!(error.message, "Expected ident or hashtag, found Int");
    assert_eq!(error.span, Span::new(10, 11));
    let error = parse("main: pop $x").unwrap_err();
    assert_eq!(error.message, "Expected ident or hashtag, found Dollar");
    assert_eq!(error.span, Span::new(10, 11));
}

#[test]
fn a_value_is_a_number_a_label_or_a_place() {
    let error = parse("main: mov r1, ,").unwrap_err();
    assert_eq!(error.message, "Expected int, ident or hashtag, found Comma");
    assert_eq!(error.span, Span::new(14, 15));
    let error = parse("main: allow 1 \"x\"").unwrap_err();
    assert_eq!(error.message, "Expected int, ident or hashtag, found String");
    assert_eq!(error.span, Span::new(14, 17));
}

#[test]
fn a_number_with_a_fraction_is_an_error() {
    let error = parse("main: mov r1, 1.5").unwrap_err();
    assert_eq!(error.message, "Expected int, found \"1.5\"");
    assert_eq!(error.span, Span::new(14, 17));
}

#[test]
fn a_number_has_to_fit_in_32_bits_with_a_sign() {
    let program = parse("main: mov r1, 2147483647").unwrap();
    assert_eq!(
        program.labels[0].program[0],
        Command::Mov(Mov(reg(Register::R1), Expr::Int(2147483647)))
    );
    let program = parse("main: mov r1, 0000").unwrap();
    assert_eq!(program.labels[0].program[0], Command::Mov(Mov(reg(Register::R1), Expr::Int(0))));
    let error = parse("main: mov r1, 2147483648").unwrap_err();
    assert_eq!(error.message, "Expected int, found \"2147483648\"");
    assert_eq!(error.span, Span::new(14, 24));
    let error = parse("main: mov r1, 99999999999999999999999999").unwrap_err();
    assert_eq!(error.message, "Expected int, found \"99999999999999999999999999\"");
}

#[test]
fn an_address_has_to_fit_in_four_bytes() {
    let program = parse("main: pop #4294967295").unwrap();
    assert_eq!(
        program.labels[0].program[0],
        Command::Pop(Pop(MemoryFetching::Addr(4294967295)))
    );
    let error = parse("main: pop #4294967296").unwrap_err();
    assert_eq!(error.message, "Expected address, found \"4294967296\"");
    assert_eq!(error.span, Span::new(11, 21));
    let error = parse("main: pop #1.5").unwrap_err();
    assert_eq!(error.message, "Expected address, found \"1.5\"");
    let error = parse("main: pop #r1").unwrap_err();
    assert_eq!(error.message, "Expected Int, found Ident `r1`");
    assert_eq!(error.span, Span::new(11, 13));
}

#[test]
fn call_wants_a_dollar_and_a_name() {
    let error = parse("main: call sum").unwrap_err();
    assert_eq!(error.message, "Expected Dollar, found Ident `sum`");
    assert_eq!(error.span, Span::new(11, 14));
    let error = parse("main: call $5").unwrap_err();
    assert_eq!(error.message, "Expected Ident, found Int `5`");
    assert_eq!(error.span, Span::new(12, 13));
}

#[test]
fn the_end_of_the_input_is_seen_as_a_token() {
    let error = parse("main: mov r1,").unwrap_err();
    assert_eq!(error.message, "Expected int, ident or hashtag, found Eof");
    assert_eq!(error.span, Span::new(13, 13));
    let error = parse("main: mov").unwrap_err();
    assert_eq!(error.message, "Expected ident or hashtag, found Eof");
    assert_eq!(error.span, Span::new(9, 9));
    let error = parse("main").unwrap_err();
    assert_eq!(error.message, "Expected Colon, found Eof ``");
    assert_eq!(error.span, Span::new(4, 4));
    let error = parse("main: call $").unwrap_err();
    assert_eq!(error.message, "Expected Ident, found Eof ``");
    assert_eq!(error.span, Span::new(12, 12));
    let error = parse("main: pop #").unwrap_err();
    assert_eq!(error.message, "Expected Int, found Eof ``");
}

#[test]
fn an_error_in_a_later_label_is_met_as_a_command() {
    let error = parse("a: mov r1, 1 b: mov r2").unwrap_err();
    assert_eq!(error.message, "unexpected command");
    assert_eq!(error.span, Span::new(13, 14));
}

#[test]
fn a_label_may_have_the_name_of_a_command_or_a_register() {
    let program = parse("mov: mov r1, 1 r1: call $mov").unwrap();
    assert_eq!(program.labels.len(), 2);
    assert_eq!(program.labels[0].name, "mov");
    assert_eq!(program.labels[1].name, "r1");
}

#[test]
fn newline_tokens_before_a_command_are_skipped() {
    let tokens = vec![
        token(TokenKind::Ident, "main", 0),
        token(TokenKind::Colon, ":", 4),
        token(TokenKind::Newline, "\n", 5),
        token(TokenKind::Newline, "\n", 6),
        token(TokenKind::Ident, "mul", 7),
        token(TokenKind::Ident, "r1", 11),
    ];
    let mut parser = Parser::new(tokens);
    let program = parser.parse().unwrap();
    assert_eq!(
        program,
        Program::new(vec![Label::new(
            "main".to_string(),
            vec![Command::Mul(Mul(reg(Register::R1)))]
        )])
    );
    assert_eq!(parser.current, 6);
}

#[test]
fn the_cursor_is_left_where_the_error_was_met() {
    let mut lexer = Lexer::new("main: mov r1 1 end: mul r1");
    lexer.scan_tokens().unwrap();
    let mut parser = Parser::new(lexer.get_tokens());
    assert!(parser.parse().is_err());
    assert_eq!(parser.current, 5);
    assert_eq!(parser.tokens.len(), 9);
}

#[test]
fn parsing_from_the_end_adds_nothing() {
    let mut lexer = Lexer::new("main: mul r1");
    lexer.scan_tokens().unwrap();
    let mut parser = Parser::new(lexer.get_tokens());
    assert_eq!(parser.parse().unwrap().labels.len(), 1);
    assert_eq!(parser.current, 4);
    assert_eq!(parser.parse().unwrap(), Program::new(vec![]));
}

#[test]
fn error_new_keeps_its_parts() {
    let error = Error::new("wrong".to_string(), Span::new(1, 2));
    assert_eq!(error.message, "wrong");
    assert_eq!(error.span, Span::new(1, 2));
    let copy = error.clone();
    assert_eq!(copy.message, "wrong");
    assert_eq!(copy.span, Span::new(1, 2));
}

#[test]
fn syntax_tree_clones_are_equal() {
    let program = parse("main: mov r1, $main call $main allow #1 2").unwrap();
    assert_eq!(program.clone(), program);
    assert_eq!(program.labels[0].clone(), program.labels[0]);
    assert_eq!(program.labels[0].program[1].clone(), program.labels[0].program[1]);
}

#[test]
fn a_register_name_read_as_a_place_takes_one_token() {
    let all = [
        ("r1", Register::R1, 1),
        ("r2", Register::R2, 2),
        ("r3", Register::R3, 3),
        ("r4", Register::R4, 4),
        ("r5", Register::R5, 5),
        ("r6", Register::R6, 6),
        ("r7", Register::R7, 7),
        ("r8", Register::R8, 8),
        ("r9", Register::R9, 9),
        ("r10", Register::R10, 10),
        ("r11", Register::R11, 11),
        ("r12", Register::R12, 12),
        ("r13", Register::R13, 13),
        ("r14", Register::R14, 14),
        ("r15", Register::R15, 15),
        ("rbp", Register::Rbp, 16),
    ];
    for (name, register, code) in all {
        let mut lexer = Lexer::new(name);
        lexer.scan_tokens().unwrap();
        let mut tokens = lexer.get_tokens();
        assert_eq!(tokens.len(), 1);
        tokens.push(token(TokenKind::Comma, ",", name.len()));
        let mut parser = Parser::new(tokens);
        let place = parser.parse_memory_fetching().unwrap();
        assert_eq!(place, MemoryFetching::Register(register));
        assert_eq!(parser.current, 1);
        match place {
            MemoryFetching::Register(found) => assert_eq!(found.code(), code),
            MemoryFetching::Addr(_) => panic!("a register was read"),
        }
        parser.current = 0;
        assert_eq!(parser.parse_expr().unwrap(), Expr::Memory(reg(register)));
        assert_eq!(parser.current, 1);
        parser.current = 0;
        assert_eq!(parser.parse_register().unwrap(), register);
        assert_eq!(parser.current, 1);
    }
}

#[test]
fn the_rules_can_be_read_one_by_one() {
    let source = "#5 $a 7 , mul r2";
    let mut lexer = Lexer::new(source);
    lexer.scan_tokens().unwrap();
    let mut parser = Parser::new(lexer.get_tokens());
    assert_eq!(parser.peek().lexeme, "#");
    assert_eq!(parser.parse_memory_fetching().unwrap(), MemoryFetching::Addr(5));
    assert_eq!(parser.current, 2);
    assert_eq!(parser.parse_expr().unwrap(), Expr::Label("a".to_string(), Span::new(4, 5)));
    assert_eq!(parser.current, 4);
    assert_eq!(parser.parse_int().unwrap(), Expr::Int(7));
    assert_eq!(parser.expect(TokenKind::Comma).unwrap().lexeme, ",");
    assert!(!parser.is_at_end());
    assert_eq!(parser.parse_command().unwrap(), Command::Mul(Mul(reg(Register::R2))));
    assert!(parser.is_at_end());
    assert_eq!(parser.peek().token_kind, TokenKind::Eof);
    assert_eq!(parser.peek().span, Span::new(16, 16));
    assert_eq!(parser.advance().token_kind, TokenKind::Eof);
    assert_eq!(parser.current, 8);
    parser.current = 0;
    assert_eq!(parser.parse_addr().unwrap(), 5);
    assert_eq!(
        parser.parse_label_name().unwrap(),
        ("a".to_string(), Span::new(4, 5))
    );
    parser.ignore_newlines();
    assert_eq!(parser.current, 4);
    let error = parser.parse_memory_fetching().unwrap_err();
    assert_eq!(error.message, "Expected ident or hashtag, found Int");
    assert_eq!(parser.current, 4);
    let error = parser.parse_label().unwrap_err();
    assert_eq!(error.message, "Expected Ident, found Int `7`");
}
