use popper_asm::ast::{
    Allow, Call, Command, Expr, Label, MemoryFetching, Mov, Mul, Pop, Program, Register,
};
use popper_asm::compiler::LabelTable;
use popper_asm::lexer::Lexer;
use popper_asm::machine_code::{
    MachineCode, MachineCodeCompiler, MachineCodeInstruction, ADD, ALLOW, CALL, DIV, INT, LABEL,
    MEM, MOV, MUL, NOP, POP, REG, SUB, VOID,
};
use popper_asm::parser::{Error, Parser};
use popper_asm::span::Span;
use popper_asm::{assemble, compile_string, Mode};

fn program_of(source: &str) -> Program {
    let mut lexer = Lexer::new(source);
    lexer.scan_tokens().unwrap();
    let mut parser = Parser::new(lexer.get_tokens());
    parser.parse().unwrap()
}

fn compile(source: &str) -> Result<MachineCode, Error> {
    MachineCodeCompiler::new(program_of(source)).compile()
}

fn instr(
    label: u32,
    op: u8,
    type1: u8,
    operand1: u32,
    type2: u8,
    operand2: u32,
) -> MachineCodeInstruction {
    MachineCodeInstruction::new(
        label.to_le_bytes(),
        op,
        type1,
        operand1.to_le_bytes(),
        type2,
        operand2.to_le_bytes(),
    )
}

fn sentinel() -> MachineCodeInstruction {
    instr(1, NOP, VOID, 0, VOID, 0)
}

fn mul(register: Register) -> Command {
    Command::Mul(Mul(MemoryFetching::Register(register)))
}

#[test]
fn mul_emits_one_instruction_with_an_empty_second_operand() {
    let code = compile("main: mul r1").unwrap();
    assert_eq!(
        code.code,
        vec![
            MachineCodeInstruction::new(
                [1, 0, 0, 0],
                MUL,
                REG,
                [1, 0, 0, 0],
                VOID,
                [0, 0, 0, 0]
            ),
            sentinel(),
        ]
    );
}

#[test]
fn forward_reference_resolves() {
    let code = compile("main: call $sum \n sum: mov r1, 1").unwrap();
    assert_eq!(
        code.code,
        vec![
            instr(1, CALL, LABEL, 2, VOID, 0),
            instr(2, MOV, REG, 1, INT, 1),
            sentinel(),
        ]
    );
    assert_eq!(code.code[0].operand1, [2, 0, 0, 0]);
}

#[test]
fn undefined_label_is_an_error_at_its_name() {
    let source = "main: call $missing";
    let error = compile(source).unwrap_err();
    assert_eq!(error.message, "Label not found: missing");
    assert_eq!(error.span, Span::new(12, 19));
    assert_eq!(error.span.extract_from_str(source), "missing");
    let error = assemble(source).unwrap_err();
    assert_eq!(error.message, "Label not found: missing");
    assert_eq!(error.span, Span::new(12, 19));
}

#[test]
fn undefined_label_in_a_value_is_an_error_at_its_name() {
    let source = "main: mov r1, $nowhere";
    let error = compile(source).unwrap_err();
    assert_eq!(error.message, "Label not found: nowhere");
    assert_eq!(error.span, Span::new(15, 22));
    let error = compile("main: allow $main $b").unwrap_err();
    assert_eq!(error.message, "Label not found: b");
    let error = compile("main: allow $a $b").unwrap_err();
    assert_eq!(error.message, "Label not found: a");
}

#[test]
fn an_error_leaves_no_code_behind() {
    let mut compiler = MachineCodeCompiler::new(program_of("main: mul r1 pop r2 call $x mul r3"));
    assert!(compiler.compile().is_err());
    assert!(compiler.machine_code.code.is_empty());
    assert_eq!(compiler.current_label, 1);
    assert_eq!(compiler.labels.get("main"), Some(1));
    let mut compiler = MachineCodeCompiler::new(program_of("main: mul r1 end: mul r2 call $missing"));
    assert!(compiler.compile().is_err());
    assert!(compiler.machine_code.code.is_empty());
    let mut compiler = MachineCodeCompiler::new(program_of("main: mul r1"));
    assert_eq!(compiler.compile().unwrap().code.len(), 2);
    compiler.program = program_of("main: call $missing");
    assert!(compiler.compile().is_err());
    assert!(compiler.machine_code.code.is_empty());
}

#[test]
fn label_addresses_add_up() {
    let labels = vec![
        Label::new("l0".to_string(), vec![mul(Register::R1), mul(Register::R2)]),
        Label::new(
            "l1".to_string(),
            vec![mul(Register::R3), mul(Register::R4), mul(Register::R5)],
        ),
        Label::new("l2".to_string(), vec![mul(Register::R6)]),
    ];
    let mut compiler = MachineCodeCompiler::new(Program::new(vec![]));
    compiler.setup_labels(labels).unwrap();
    assert_eq!(compiler.labels.get("l0"), Some(1));
    assert_eq!(compiler.labels.get("l1"), Some(3));
    assert_eq!(compiler.labels.get("l2"), Some(6));
    assert_eq!(compiler.labels.get("l3"), None);
}

#[test]
fn label_addresses_depend_on_the_order() {
    let mut compiler = MachineCodeCompiler::new(Program::new(vec![]));
    compiler
        .setup_labels(vec![
            Label::new(
                "l1".to_string(),
                vec![mul(Register::R3), mul(Register::R4), mul(Register::R5)],
            ),
            Label::new("l0".to_string(), vec![mul(Register::R1), mul(Register::R2)]),
        ])
        .unwrap();
    assert_eq!(compiler.labels.get("l1"), Some(1));
    assert_eq!(compiler.labels.get("l0"), Some(4));
}

#[test]
fn an_instruction_for_each_command_and_one_sentinel() {
    let source = "a: mov r1, 1 add r1, 2 b: sub r1, 3 c: div r1, 4 mul r1 pop r1 call $a allow 1 2";
    let program = program_of(source);
    let commands: usize = program.labels.iter().map(|l| l.program.len()).sum();
    let code = MachineCodeCompiler::new(program).compile().unwrap();
    assert_eq!(commands, 8);
    assert_eq!(code.code.len(), commands + 1);
    assert_eq!(code.code.iter().filter(|i| i.instr == NOP).count(), 1);
    assert_eq!(code.code[commands], sentinel());
    assert_eq!(code.code[commands].operand1_type, VOID);
    assert_eq!(code.code[commands].operand2_type, VOID);
    assert_eq!(
        code.code.iter().map(|i| i.instr).collect::<Vec<u8>>(),
        vec![MOV, ADD, SUB, DIV, MUL, POP, CALL, ALLOW, NOP]
    );
}

#[test]
fn an_empty_program_is_the_sentinel_alone() {
    let code = MachineCodeCompiler::new(Program::new(vec![])).compile().unwrap();
    assert_eq!(code.code, vec![sentinel()]);
    let code = compile("main:").unwrap();
    assert_eq!(code.code, vec![sentinel()]);
}

#[test]
fn compiling_twice_gives_the_same_code() {
    let source = "main: mov r1, 2 call $sum mul r1 sum: add r1, r4";
    let first = compile(source).unwrap();
    let second = compile(source).unwrap();
    assert_eq!(first.code, second.code);
    let mut compiler = MachineCodeCompiler::new(program_of(source));
    let third = compiler.compile().unwrap();
    let fourth = compiler.compile().unwrap();
    assert_eq!(third.code, first.code);
    assert_eq!(fourth.code, first.code);
    assert_eq!(compiler.machine_code.code, first.code);
}

#[test]
fn operands_are_encoded_by_their_kind() {
    let code = compile("main: mov rbp, 258 add #513, r15 sub r2, #70000 div r3, $main").unwrap();
    assert_eq!(
        code.code,
        vec![
            MachineCodeInstruction::new([1, 0, 0, 0], MOV, REG, [16, 0, 0, 0], INT, [2, 1, 0, 0]),
            MachineCodeInstruction::new([1, 0, 0, 0], ADD, MEM, [1, 2, 0, 0], REG, [15, 0, 0, 0]),
            MachineCodeInstruction::new(
                [1, 0, 0, 0],
                SUB,
                REG,
                [2, 0, 0, 0],
                MEM,
                [0x70, 0x11, 0x01, 0]
            ),
            MachineCodeInstruction::new([1, 0, 0, 0], DIV, REG, [3, 0, 0, 0], LABEL, [1, 0, 0, 0]),
            sentinel(),
        ]
    );
}

#[test]
fn a_negative_number_keeps_its_bits() {
    let program = Program::new(vec![Label::new(
        "main".to_string(),
        vec![
            Command::Mov(Mov(MemoryFetching::Register(Register::R1), Expr::Int(-1))),
            Command::Mov(Mov(MemoryFetching::Register(Register::R1), Expr::Int(-2))),
            Command::Mov(Mov(MemoryFetching::Register(Register::R1), Expr::Int(i32::MIN))),
            Command::Mov(Mov(MemoryFetching::Register(Register::R1), Expr::Int(i32::MAX))),
        ],
    )]);
    let code = MachineCodeCompiler::new(program).compile().unwrap();
    assert_eq!(code.code[0].operand2, [0xff, 0xff, 0xff, 0xff]);
    assert_eq!(code.code[1].operand2, [0xfe, 0xff, 0xff, 0xff]);
    assert_eq!(code.code[2].operand2, [0, 0, 0, 0x80]);
    assert_eq!(code.code[3].operand2, [0xff, 0xff, 0xff, 0x7f]);
    assert_eq!(code.code[0].operand2, (-1i32).to_le_bytes());
    assert_eq!(code.code[2].operand2, i32::MIN.to_le_bytes());
}

#[test]
fn a_call_makes_its_target_current() {
    let code = compile("main: mul r1 call $sum mul r2 call $main mul r3 sum: mul r4").unwrap();
    assert_eq!(
        code.code,
        vec![
            instr(1, MUL, REG, 1, VOID, 0),
            instr(1, CALL, LABEL, 6, VOID, 0),
            instr(6, MUL, REG, 2, VOID, 0),
            instr(6, CALL, LABEL, 1, VOID, 0),
            instr(1, MUL, REG, 3, VOID, 0),
            instr(6, MUL, REG, 4, VOID, 0),
            sentinel(),
        ]
    );
}

#[test]
fn a_call_does_not_reach_into_the_next_label() {
    let code = compile("a: call $c b: mul r1 c: mul r2").unwrap();
    assert_eq!(
        code.code,
        vec![
            instr(1, CALL, LABEL, 3, VOID, 0),
            instr(2, MUL, REG, 1, VOID, 0),
            instr(3, MUL, REG, 2, VOID, 0),
            sentinel(),
        ]
    );
}

#[test]
fn of_two_labels_with_one_name_the_later_is_meant() {
    let code = compile("a: mul r1 mul r2 a: call $a b: call $a").unwrap();
    assert_eq!(
        code.code,
        vec![
            instr(3, MUL, REG, 1, VOID, 0),
            instr(3, MUL, REG, 2, VOID, 0),
            instr(3, CALL, LABEL, 3, VOID, 0),
            instr(4, CALL, LABEL, 3, VOID, 0),
            sentinel(),
        ]
    );
}

#[test]
fn an_address_beyond_one_byte_is_spread_over_the_bytes() {
    let commands: Vec<Command> = (0..300).map(|_| mul(Register::R1)).collect();
    let program = Program::new(vec![
        Label::new("big".to_string(), commands),
        Label::new("end".to_string(), vec![mul(Register::R2)]),
    ]);
    let code = MachineCodeCompiler::new(program).compile().unwrap();
    assert_eq!(code.code.len(), 302);
    assert_eq!(code.code[300].label, [0x2d, 0x01, 0, 0]);
    assert!(code.contains_addr_instr(301));
    assert!(!code.contains_addr_instr(300));
}

#[test]
fn the_passes_can_be_run_by_hand() {
    let program = program_of("main: call $sum mul r1 sum: pop r2");
    let mut compiler = MachineCodeCompiler::new(Program::new(vec![]));
    assert_eq!(compiler.current_label, 1);
    compiler.setup_labels(program.labels.clone()).unwrap();
    compiler.labels_compiler(program.labels.clone()).unwrap();
    assert_eq!(
        compiler.machine_code.code,
        vec![
            instr(1, CALL, LABEL, 3, VOID, 0),
            instr(3, MUL, REG, 1, VOID, 0),
            instr(3, POP, REG, 2, VOID, 0),
        ]
    );
    assert_eq!(compiler.current_label, 3);
    compiler.current_label = 9;
    compiler
        .command_compiler(vec![mul(Register::R5), Command::Call(Call("main".to_string(), Span::new(0, 0)))])
        .unwrap();
    assert_eq!(compiler.machine_code.code.len(), 5);
    assert_eq!(compiler.machine_code.code[3], instr(9, MUL, REG, 5, VOID, 0));
    assert_eq!(compiler.machine_code.code[4], instr(9, CALL, LABEL, 1, VOID, 0));
    assert_eq!(compiler.current_label, 1);
}

#[test]
fn a_block_under_an_unknown_label_is_an_error() {
    let mut compiler = MachineCodeCompiler::new(Program::new(vec![]));
    let error = compiler
        .labels_compiler(vec![Label::new("main".to_string(), vec![mul(Register::R1)])])
        .unwrap_err();
    assert_eq!(error.message, "Label not found: main");
    assert_eq!(error.span, Span::new(0, 0));
    assert!(compiler.machine_code.code.is_empty());
}

#[test]
fn command_compiler_stops_at_the_first_error() {
    let mut compiler = MachineCodeCompiler::new(Program::new(vec![]));
    let error = compiler
        .command_compiler(vec![
            mul(Register::R1),
            Command::Pop(Pop(MemoryFetching::Addr(3))),
            Command::Allow(Allow(Expr::Int(1), Expr::Label("x".to_string(), Span::new(4, 5)))),
            mul(Register::R2),
        ])
        .unwrap_err();
    assert_eq!(error.message, "Label not found: x");
    assert_eq!(error.span, Span::new(4, 5));
    assert!(compiler.machine_code.code.is_empty());
    assert_eq!(compiler.current_label, 1);
}

#[test]
fn a_pass_that_fails_adds_nothing() {
    let mut compiler = MachineCodeCompiler::new(Program::new(vec![]));
    compiler.labels.insert("a".to_string(), 5);
    compiler.labels.insert("b".to_string(), 7);
    compiler.command_compiler(vec![mul(Register::R1)]).unwrap();
    compiler.current_label = 3;
    let error = compiler
        .command_compiler(vec![
            Command::Call(Call("a".to_string(), Span::new(0, 0))),
            mul(Register::R2),
            Command::Call(Call("nowhere".to_string(), Span::new(8, 15))),
        ])
        .unwrap_err();
    assert_eq!(error.span, Span::new(8, 15));
    assert_eq!(compiler.machine_code.code, vec![instr(1, MUL, REG, 1, VOID, 0)]);
    assert_eq!(compiler.current_label, 3);
    let error = compiler
        .labels_compiler(vec![
            Label::new("a".to_string(), vec![mul(Register::R3)]),
            Label::new("b".to_string(), vec![mul(Register::R4)]),
            Label::new("c".to_string(), vec![mul(Register::R5)]),
        ])
        .unwrap_err();
    assert_eq!(error.message, "Label not found: c");
    assert_eq!(compiler.machine_code.code, vec![instr(1, MUL, REG, 1, VOID, 0)]);
    assert_eq!(compiler.current_label, 3);
    let error = compiler
        .labels_compiler(vec![
            Label::new("a".to_string(), vec![mul(Register::R3)]),
            Label::new(
                "b".to_string(),
                vec![
                    mul(Register::R4),
                    Command::Mov(Mov(
                        MemoryFetching::Register(Register::R1),
                        Expr::Label("gone".to_string(), Span::new(2, 6)),
                    )),
                ],
            ),
        ])
        .unwrap_err();
    assert_eq!(error.message, "Label not found: gone");
    assert_eq!(error.span, Span::new(2, 6));
    assert_eq!(compiler.machine_code.code, vec![instr(1, MUL, REG, 1, VOID, 0)]);
    assert_eq!(compiler.current_label, 3);
}

#[test]
fn the_pieces_of_an_operand() {
    let mut compiler = MachineCodeCompiler::new(Program::new(vec![]));
    compiler.labels.insert("here".to_string(), 0x01020304);
    assert_eq!(compiler.int_to_bytes(0), [0, 0, 0, 0]);
    assert_eq!(compiler.int_to_bytes(1), [1, 0, 0, 0]);
    assert_eq!(compiler.int_to_bytes(0x12345678), [0x78, 0x56, 0x34, 0x12]);
    assert_eq!(compiler.int_to_bytes(u32::MAX), [0xff, 0xff, 0xff, 0xff]);
    assert_eq!(compiler.int_to_bytes(0x8000_0000), 0x8000_0000u32.to_le_bytes());
    assert_eq!(compiler.register_to_bytes(Register::R1), [1, 0, 0, 0]);
    assert_eq!(compiler.register_to_bytes(Register::R10), [10, 0, 0, 0]);
    assert_eq!(compiler.register_to_bytes(Register::Rbp), [16, 0, 0, 0]);
    assert_eq!(
        compiler.memory_to_bytes(MemoryFetching::Register(Register::R2)),
        (REG, [2, 0, 0, 0])
    );
    assert_eq!(compiler.memory_to_bytes(MemoryFetching::Addr(260)), (MEM, [4, 1, 0, 0]));
    assert_eq!(compiler.expr_to_bytes(Expr::Int(7)).unwrap(), (INT, [7, 0, 0, 0]));
    assert_eq!(compiler.expr_to_bytes(Expr::Int(-7)).unwrap(), (INT, (-7i32).to_le_bytes()));
    assert_eq!(
        compiler.expr_to_bytes(Expr::Memory(MemoryFetching::Addr(1))).unwrap(),
        (MEM, [1, 0, 0, 0])
    );
    assert_eq!(
        compiler.expr_to_bytes(Expr::Label("here".to_string(), Span::new(0, 0))).unwrap(),
        (LABEL, [4, 3, 2, 1])
    );
    let error = compiler
        .expr_to_bytes(Expr::Label("there".to_string(), Span::new(2, 7)))
        .unwrap_err();
    assert_eq!(error.message, "Label not found: there");
    assert_eq!(error.span, Span::new(2, 7));
}

#[test]
fn label_table_keeps_the_last_address_of_a_name() {
    let mut table = LabelTable::new();
    assert_eq!(table.get("a"), None);
    table.insert("a".to_string(), 1);
    table.insert("b".to_string(), 2);
    assert_eq!(table.get("a"), Some(1));
    assert_eq!(table.get("b"), Some(2));
    table.insert("a".to_string(), 3);
    assert_eq!(table.get("a"), Some(3));
    assert_eq!(table.get("b"), Some(2));
    assert_eq!(table.get(""), None);
    assert_eq!(table.clone().get("a"), Some(3));
}

#[test]
fn compile_string_writes_binary_lines() {
    let text = compile_string("main: mul r1", &Mode::Debug).unwrap();
    assert_eq!(
        text,
        "00000001 00000000 00000000 00000000 0010100 0001 00000001 00000000 00000000 00000000 0000 00000000 00000000 00000000 00000000\n00000001 00000000 00000000 00000000 0011001 0000 00000000 00000000 00000000 00000000 0000 00000000 00000000 00000000 00000000\n"
    );
    let tight = compile_string("main: mul r1", &Mode::Release).unwrap();
    assert_eq!(tight, text.replace(' ', ""));
    assert_eq!(tight.lines().count(), 2);
    assert!(tight.lines().all(|line| line.len() == 111));
}

#[test]
fn assemble_gives_all_three_forms_from_one_run() {
    let code = assemble("main:\n  mov r1, 2\n  call $sum\nsum:\n  add r1, r4\n").unwrap();
    assert_eq!(
        code.code,
        vec![
            instr(1, MOV, REG, 1, INT, 2),
            instr(1, CALL, LABEL, 3, VOID, 0),
            instr(3, ADD, REG, 1, REG, 4),
            sentinel(),
        ]
    );
    assert_eq!(code.binary_string(&Mode::Release).lines().count(), 4);
    assert_eq!(code.hex_string(&Mode::Release).lines().count(), 4);
    assert_eq!(code.to_bytecode().len(), 4 * 15);
}

#[test]
fn assemble_reports_the_first_error_of_each_stage() {
    let source = "main: mov r1, 2 ; call $x";
    let error = assemble(source).unwrap_err();
    assert_eq!(error.message, "Unexpected character: ;");
    assert!(error.span.fits_in(source));
    let source = "main: \"abc";
    let error = compile_string(source, &Mode::Release).unwrap_err();
    assert_eq!(error.message, "Unterminated string");
    assert_eq!(error.span, Span::new(6, 10));
    let source = "main: mov r1 2 call $x";
    let error = assemble(source).unwrap_err();
    assert_eq!(error.message, "Expected Comma, found Int `2`");
    assert!(error.span.fits_in(source));
    let source = "main: mov r1, 2 call $x";
    let error = assemble(source).unwrap_err();
    assert_eq!(error.message, "Label not found: x");
    assert_eq!(error.span.extract_from_str(source), "x");
}

#[test]
fn a_long_program_is_assembled() {
    let mut source = String::new();
    for label in 0..300 {
        source.push_str(&format!("l{}:\n  mov r1, {}\n  add r1, #{}\n  call $l{}\n", label, label, label, (label + 1) % 300));
    }
    let code = assemble(&source).unwrap();
    assert_eq!(code.code.len(), 901);
    assert_eq!(code.code[3], instr(4, MOV, REG, 1, INT, 1));
    assert_eq!(code.code[899], instr(898, CALL, LABEL, 1, VOID, 0));
    assert_eq!(code.code[900], sentinel());
    assert!(code.contains_addr_instr(898));
    assert!(!code.contains_addr_instr(899));
}
