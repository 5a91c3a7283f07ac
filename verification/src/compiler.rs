//! The encoder: a first pass gives every label its address, a second pass
//! turns every command into one instruction, and one instruction more ends
//! the program.
//!
//! The address of a label is one more than the number of commands that
//! stand before it. Of two labels with the same name the later one is
//! meant. A `call` is encoded under the label that is current, and makes
//! the label that it calls current for the commands that follow it in the
//! same block.

use vstd::prelude::*;
use vstd::string::*;
use vstd::utf8::*;

use crate::ast::{
    block_spans_fit, command_views, label_views, program_spans_fit, Command, CommandView, Expr,
    ExprView, Label, LabelView, MemoryFetching, Program, ProgramView, Register,
};
use crate::error::{Error, ErrorView};
use crate::machine_code::{
    le_bytes, MachineCode, MachineCodeInstruction, ADD, ALLOW, CALL, DIV, INT, LABEL, MEM, MOV, MUL,
    NOP, POP, REG, SUB, VOID,
};
use crate::span::Span;
use crate::text::str_eq;

verus! {

/// A label's name with the address that the first pass gave it.
#[derive(Debug)]
pub struct LabelAddress {
    pub name: String,
    pub address: u32,
}

impl Clone for LabelAddress {
    fn clone(&self) -> (copy: Self)
        ensures
            copy == *self,
    {
        LabelAddress { name: self.name.clone(), address: self.address }
    }
}

/// The addresses by name that the entries give; a later entry of a name
/// replaces an earlier one.
pub open spec fn table_of(entries: Seq<LabelAddress>) -> Map<Seq<char>, u32>
    decreases entries.len(),
{
    if entries.len() == 0 {
        Map::empty()
    } else {
        table_of(entries.drop_last()).insert(entries.last().name@, entries.last().address)
    }
}

/// The addresses of the labels by name. The entries are kept in the order
/// in which they came and searched from the last one, so that what a name
/// has is stated over the name as a sequence of characters.
#[derive(Debug)]
pub struct LabelTable {
    pub entries: Vec<LabelAddress>,
}

impl View for LabelTable {
    type V = Map<Seq<char>, u32>;

    open spec fn view(&self) -> Map<Seq<char>, u32> {
        table_of(self.entries@)
    }
}

impl Clone for LabelTable {
    fn clone(&self) -> (copy: Self)
        ensures
            copy@ == self@,
    {
        let entries = self.entries.clone();
        LabelTable { entries }
    }
}

impl LabelTable {
    /// A table without entries.
    pub fn new() -> (table: Self)
        ensures
            table@ == Map::<Seq<char>, u32>::empty(),
    {
        LabelTable { entries: Vec::new() }
    }

    /// Gives `name` the address `address`, whatever it had before.
    pub fn insert(&mut self, name: String, address: u32)
        ensures
            final(self)@ == old(self)@.insert(name@, address),
    {
        self.entries.push(LabelAddress { name, address });
        assert(self.entries@.drop_last() =~= old(self).entries@);
    }

    /// The address of `name`, if it has one.
    pub fn get(&self, name: &str) -> (address: Option<u32>)
        ensures
            match address {
                Some(a) => self@.contains_key(name@) && self@[name@] == a,
                None => !self@.contains_key(name@),
            },
    {
        let mut index = self.entries.len();
        assert(self.entries@.take(index as int) =~= self.entries@);
        while index > 0
            invariant
                index <= self.entries.len(),
                self@.contains_key(name@) == table_of(self.entries@.take(index as int)).contains_key(
                    name@,
                ),
                self@.contains_key(name@) ==> self@[name@] == table_of(
                    self.entries@.take(index as int),
                )[name@],
            decreases index,
        {
            proof {
                assert(self.entries@.take(index as int).drop_last() =~= self.entries@.take(
                    index - 1,
                ));
            }
            index -= 1;
            if str_eq(self.entries[index].name.as_str(), name) {
                return Some(self.entries[index].address);
            }
        }
        None
    }
}

/// The address of the label at `index`: one more than the number of
/// commands in the labels before it.
pub open spec fn label_address(labels: Seq<LabelView>, index: int) -> int
    decreases index,
{
    if index <= 0 {
        1
    } else {
        label_address(labels, index - 1) + labels[index - 1].program.len()
    }
}

/// The number of commands in all the labels.
pub open spec fn command_count(labels: Seq<LabelView>) -> int {
    label_address(labels, labels.len() as int) - 1
}

/// True when the address of every label fits in four bytes.
pub open spec fn addresses_fit(labels: Seq<LabelView>) -> bool {
    labels.len() == 0 || label_address(labels, labels.len() - 1) <= u32::MAX
}

/// `table` after the first `count` labels have got their addresses.
pub open spec fn label_table_onto(table: Map<Seq<char>, u32>, labels: Seq<LabelView>, count: int) -> Map<
    Seq<char>,
    u32,
>
    decreases count,
{
    if count <= 0 {
        table
    } else {
        label_table_onto(table, labels, count - 1).insert(
            labels[count - 1].name,
            label_address(labels, count - 1) as u32,
        )
    }
}

/// The addresses of the labels by name: what the first pass yields.
pub open spec fn label_table(labels: Seq<LabelView>) -> Map<Seq<char>, u32> {
    label_table_onto(Map::empty(), labels, labels.len() as int)
}

/// The first label has address 1, and each label stands as many
/// addresses behind the one before it as that one has commands.
pub proof fn lemma_label_addresses_cumulative(labels: Seq<LabelView>, index: int)
    requires
        0 <= index < labels.len(),
    ensures
        label_address(labels, 0) == 1,
        label_address(labels, index + 1) == label_address(labels, index)
            + labels[index].program.len(),
{
}

/// A later label has no smaller address than an earlier one, and no
/// address is below 1.
pub proof fn lemma_label_addresses_grow(labels: Seq<LabelView>, first: int, second: int)
    requires
        first <= second,
    ensures
        1 <= label_address(labels, first) <= label_address(labels, second),
    decreases second,
{
    if second > 0 {
        if first < second {
            lemma_label_addresses_grow(labels, first, second - 1);
        } else {
            lemma_label_addresses_grow(labels, first - 1, second - 1);
        }
    }
}

/// The bytes of a number with a sign: those of the number itself where it
/// is not negative, and those of the number plus 2^32 where it is.
pub open spec fn signed_bits(value: i32) -> u32 {
    if value >= 0 {
        value as u32
    } else {
        (value + 0x1_0000_0000) as u32
    }
}

/// The error for a name that no label has.
pub open spec fn label_not_found(name: Seq<char>, span: Span) -> ErrorView {
    ErrorView { message: "Label not found: "@ + name, span }
}

/// The error for a label whose address does not fit in four bytes. No
/// place in the source text stands for it.
pub open spec fn address_out_of_range() -> ErrorView {
    ErrorView { message: "Label address out of range"@, span: Span { start: 0, end: 0 } }
}

/// The operand that stands for nothing. An operand is its type and its
/// four bytes.
pub open spec fn void_operand() -> (u8, [u8; 4]) {
    (VOID, [0u8, 0u8, 0u8, 0u8])
}

/// The operand for a place: a register by its code, an address by itself.
pub open spec fn place_operand(place: MemoryFetching) -> (u8, [u8; 4]) {
    match place {
        MemoryFetching::Register(register) => (REG, le_bytes(register.spec_code())),
        MemoryFetching::Addr(address) => (MEM, le_bytes(address)),
    }
}

/// The operand for a value; a label has to be in the table.
pub open spec fn value_operand(table: Map<Seq<char>, u32>, value: ExprView) -> Result<
    (u8, [u8; 4]),
    ErrorView,
> {
    match value {
        ExprView::Int(number) => Ok((INT, le_bytes(signed_bits(number)))),
        ExprView::Label(name, span) => if table.contains_key(name) {
            Ok((LABEL, le_bytes(table[name])))
        } else {
            Err(label_not_found(name, span))
        },
        ExprView::Memory(place) => Ok(place_operand(place)),
    }
}

/// The instruction with the given parts.
pub open spec fn instruction(
    label: u32,
    instr: u8,
    first: (u8, [u8; 4]),
    second: (u8, [u8; 4]),
) -> MachineCodeInstruction {
    MachineCodeInstruction {
        label: le_bytes(label),
        instr,
        operand1_type: first.0,
        operand1: first.1,
        operand2_type: second.0,
        operand2: second.1,
    }
}

/// The instruction that ends every program.
pub open spec fn sentinel() -> MachineCodeInstruction {
    instruction(1, NOP, void_operand(), void_operand())
}

/// The instruction for a place and a value.
pub open spec fn place_and_value(
    table: Map<Seq<char>, u32>,
    current: u32,
    instr: u8,
    place: MemoryFetching,
    value: ExprView,
) -> Result<MachineCodeInstruction, ErrorView> {
    match value_operand(table, value) {
        Ok(second) => Ok(instruction(current, instr, place_operand(place), second)),
        Err(error) => Err(error),
    }
}

/// The instruction for one command under the label at `current`.
pub open spec fn encode_command(table: Map<Seq<char>, u32>, current: u32, command: CommandView) -> Result<
    MachineCodeInstruction,
    ErrorView,
> {
    match command {
        CommandView::Mov(place, value) => place_and_value(table, current, MOV, place, value),
        CommandView::Add(place, value) => place_and_value(table, current, ADD, place, value),
        CommandView::Sub(place, value) => place_and_value(table, current, SUB, place, value),
        CommandView::Div(place, value) => place_and_value(table, current, DIV, place, value),
        CommandView::Mul(place) => Ok(
            instruction(current, MUL, place_operand(place), void_operand()),
        ),
        CommandView::Pop(place) => Ok(
            instruction(current, POP, place_operand(place), void_operand()),
        ),
        CommandView::Call(name, span) => if table.contains_key(name) {
            Ok(instruction(current, CALL, (LABEL, le_bytes(table[name])), void_operand()))
        } else {
            Err(label_not_found(name, span))
        },
        CommandView::Allow(to, from) => match value_operand(table, to) {
            Err(error) => Err(error),
            Ok(first) => match value_operand(table, from) {
                Err(error) => Err(error),
                Ok(second) => Ok(instruction(current, ALLOW, first, second)),
            },
        },
    }
}

/// The label that is current behind a command: the one that a `call`
/// names, and the one that was current before any other command.
pub open spec fn current_after(table: Map<Seq<char>, u32>, current: u32, command: CommandView) -> u32 {
    match command {
        CommandView::Call(name, span) => if table.contains_key(name) {
            table[name]
        } else {
            current
        },
        _ => current,
    }
}

/// What encoding yields. Where all went well: the instructions in order,
/// and the label that is current at the end. Where an error stopped it: the
/// error, no instruction, and the label that was current at the start.
pub struct Emitted {
    pub code: Seq<MachineCodeInstruction>,
    pub current: u32,
    pub error: Option<ErrorView>,
}

/// Encoding the commands from the one at `from` on. The first command
/// that cannot be encoded is the error of the whole.
pub open spec fn encode_commands(
    table: Map<Seq<char>, u32>,
    current: u32,
    commands: Seq<CommandView>,
    from: int,
) -> Emitted
    decreases commands.len() - from,
{
    if from < 0 || from >= commands.len() {
        Emitted { code: Seq::empty(), current, error: None }
    } else {
        match encode_command(table, current, commands[from]) {
            Err(error) => Emitted { code: Seq::empty(), current, error: Some(error) },
            Ok(first) => {
                let rest = encode_commands(
                    table,
                    current_after(table, current, commands[from]),
                    commands,
                    from + 1,
                );
                if rest.error is Some {
                    Emitted { code: Seq::empty(), current, error: rest.error }
                } else {
                    Emitted { code: seq![first] + rest.code, current: rest.current, error: None }
                }
            },
        }
    }
}

/// Encoding the labels from the one at `from` on. Each label makes its own
/// address current for its commands. The first error of a block is the
/// error of the whole.
pub open spec fn encode_labels(
    table: Map<Seq<char>, u32>,
    current: u32,
    labels: Seq<LabelView>,
    from: int,
) -> Emitted
    decreases labels.len() - from,
{
    if from < 0 || from >= labels.len() {
        Emitted { code: Seq::empty(), current, error: None }
    } else if !table.contains_key(labels[from].name) {
        Emitted {
            code: Seq::empty(),
            current,
            error: Some(label_not_found(labels[from].name, Span { start: 0, end: 0 })),
        }
    } else {
        let block = encode_commands(table, table[labels[from].name], labels[from].program, 0);
        if block.error is Some {
            Emitted { code: Seq::empty(), current, error: block.error }
        } else {
            let rest = encode_labels(table, block.current, labels, from + 1);
            if rest.error is Some {
                Emitted { code: Seq::empty(), current, error: rest.error }
            } else {
                Emitted { code: block.code + rest.code, current: rest.current, error: None }
            }
        }
    }
}

/// What compiling a program yields, and the state in which it leaves the
/// compiler: the instructions, the table of the labels, and the label that
/// is current at the end. Where an error stopped it there is no instruction.
pub struct Compiled {
    pub code: Seq<MachineCodeInstruction>,
    pub table: Map<Seq<char>, u32>,
    pub current: u32,
    pub error: Option<ErrorView>,
}

/// Compiling a program: both passes, and the instruction that ends the
/// program where no error stopped them.
pub open spec fn compile_program(program: ProgramView) -> Compiled {
    if !addresses_fit(program.labels) {
        Compiled {
            code: Seq::empty(),
            table: Map::empty(),
            current: 1,
            error: Some(address_out_of_range()),
        }
    } else {
        let table = label_table(program.labels);
        let emitted = encode_labels(table, 1, program.labels, 0);
        Compiled {
            code: if emitted.error is Some {
                Seq::empty()
            } else {
                emitted.code.push(sentinel())
            },
            table,
            current: emitted.current,
            error: emitted.error,
        }
    }
}

/// True for the operations that a command is encoded as.
pub open spec fn is_command_instr(instr: u8) -> bool {
    MOV <= instr <= ALLOW
}

/// Where no error stops it, encoding the commands of a block yields one
/// instruction for each command, and none of them ends a program.
pub proof fn lemma_commands_emit_one_each(
    table: Map<Seq<char>, u32>,
    current: u32,
    commands: Seq<CommandView>,
    from: int,
)
    requires
        0 <= from <= commands.len(),
        encode_commands(table, current, commands, from).error is None,
    ensures
        encode_commands(table, current, commands, from).code.len() == commands.len() - from,
        forall|i: int|
            0 <= i < commands.len() - from ==> is_command_instr(
                #[trigger] encode_commands(table, current, commands, from).code[i].instr,
            ),
    decreases commands.len() - from,
{
    if from < commands.len() {
        let next = current_after(table, current, commands[from]);
        lemma_commands_emit_one_each(table, next, commands, from + 1);
    }
}

/// Where no error stops it, encoding the labels yields one instruction for
/// each command of each label, and none of them ends a program.
pub proof fn lemma_labels_emit_one_each(
    table: Map<Seq<char>, u32>,
    current: u32,
    labels: Seq<LabelView>,
    from: int,
)
    requires
        0 <= from <= labels.len(),
        encode_labels(table, current, labels, from).error is None,
    ensures
        encode_labels(table, current, labels, from).code.len() == label_address(
            labels,
            labels.len() as int,
        ) - label_address(labels, from),
        forall|i: int|
            0 <= i < encode_labels(table, current, labels, from).code.len() ==> is_command_instr(
                #[trigger] encode_labels(table, current, labels, from).code[i].instr,
            ),
    decreases labels.len() - from,
{
    if from < labels.len() {
        let block = encode_commands(table, table[labels[from].name], labels[from].program, 0);
        lemma_commands_emit_one_each(table, table[labels[from].name], labels[from].program, 0);
        lemma_labels_emit_one_each(table, block.current, labels, from + 1);
        let all = encode_labels(table, current, labels, from);
    }
}

/// A program that compiles yields as many instructions as it has commands
/// in all its labels, and behind them the one instruction that ends it: a
/// `NOP` under address 1 with two empty operands. No other instruction is a
/// `NOP`.
pub proof fn lemma_compiled_count(program: ProgramView)
    requires
        compile_program(program).error is None,
    ensures
        compile_program(program).code.len() == command_count(program.labels) + 1,
        compile_program(program).code.last() == sentinel(),
        sentinel().instr == NOP,
        sentinel().label == le_bytes(1),
        sentinel().operand1_type == VOID && sentinel().operand1 == [0u8, 0u8, 0u8, 0u8],
        sentinel().operand2_type == VOID && sentinel().operand2 == [0u8, 0u8, 0u8, 0u8],
        forall|i: int|
            0 <= i < command_count(program.labels) ==> (
            #[trigger] compile_program(program).code[i]).instr != NOP,
{
    let table = label_table(program.labels);
    lemma_labels_emit_one_each(table, 1, program.labels, 0);
}

/// Compiling is a function of the program: two runs on the same program
/// end alike, with the same instructions or with the same error.
pub proof fn lemma_compile_is_deterministic(
    program: ProgramView,
    first: Result<MachineCode, Error>,
    second: Result<MachineCode, Error>,
)
    requires
        MachineCodeCompiler::is_outcome(program, first),
        MachineCodeCompiler::is_outcome(program, second),
    ensures
        first is Ok <==> second is Ok,
        first is Ok ==> first->Ok_0.code@ == second->Ok_0.code@,
        first is Err ==> first->Err_0@ == second->Err_0@,
{
}

/// An error of encoding a block names a place that the block remembers.
pub proof fn lemma_block_error_span_fits(
    table: Map<Seq<char>, u32>,
    current: u32,
    commands: Seq<CommandView>,
    from: int,
    bytes: Seq<u8>,
)
    requires
        0 <= from <= commands.len(),
        block_spans_fit(commands, bytes),
    ensures
        encode_commands(table, current, commands, from).error matches Some(error)
            ==> error.span.fits(bytes),
    decreases commands.len() - from,
{
    if from < commands.len() {
        lemma_block_error_span_fits(
            table,
            current_after(table, current, commands[from]),
            commands,
            from + 1,
            bytes,
        );
    }
}

/// An error of compiling a program names a place that the program
/// remembers, or the start of the text.
pub proof fn lemma_compile_error_span_fits(program: ProgramView, bytes: Seq<u8>)
    requires
        valid_utf8(bytes),
        program_spans_fit(program.labels, bytes),
    ensures
        compile_program(program).error matches Some(error) ==> error.span.fits(bytes),
{
    lemma_labels_error_span_fits(label_table(program.labels), 1, program.labels, 0, bytes);
}

/// An error of encoding the labels names a place that one of them
/// remembers, or the start of the text.
pub proof fn lemma_labels_error_span_fits(
    table: Map<Seq<char>, u32>,
    current: u32,
    labels: Seq<LabelView>,
    from: int,
    bytes: Seq<u8>,
)
    requires
        valid_utf8(bytes),
        0 <= from <= labels.len(),
        program_spans_fit(labels, bytes),
    ensures
        encode_labels(table, current, labels, from).error matches Some(error) ==> error.span.fits(
            bytes,
        ),
    decreases labels.len() - from,
{
    if from < labels.len() && table.contains_key(labels[from].name) {
        let address = table[labels[from].name];
        lemma_block_error_span_fits(table, address, labels[from].program, 0, bytes);
        let block = encode_commands(table, address, labels[from].program, 0);
        lemma_labels_error_span_fits(table, block.current, labels, from + 1, bytes);
    }
}

/// What the whole yields, given the instructions made so far and what
/// encoding the rest yields: an error of the rest drops what was made and
/// leaves the label current that was current at the `start`.
pub open spec fn emitted_then(done: Seq<MachineCodeInstruction>, start: u32, rest: Emitted) -> Emitted {
    if rest.error is Some {
        Emitted { code: Seq::empty(), current: start, error: rest.error }
    } else {
        Emitted { code: done + rest.code, current: rest.current, error: None }
    }
}

/// The encoder's state: the program, the instructions made so far, the
/// table of the labels, and the label that is current.
#[derive(Debug)]
pub struct MachineCodeCompiler {
    pub program: Program,
    pub machine_code: MachineCode,
    pub labels: LabelTable,
    pub current_label: u32,
}

impl Clone for MachineCodeCompiler {
    fn clone(&self) -> (copy: Self)
        ensures
            copy.program@ == self.program@,
            copy.machine_code.code@ == self.machine_code.code@,
            copy.labels@ == self.labels@,
            copy.current_label == self.current_label,
    {
        MachineCodeCompiler {
            program: self.program.clone(),
            machine_code: self.machine_code.clone(),
            labels: self.labels.clone(),
            current_label: self.current_label,
        }
    }
}

impl MachineCodeCompiler {
    /// A compiler for `program` that has made no instruction yet.
    pub fn new(program: Program) -> (compiler: Self)
        ensures
            compiler.program == program,
            compiler.machine_code.code@ == Seq::<MachineCodeInstruction>::empty(),
            compiler.labels@ == Map::<Seq<char>, u32>::empty(),
            compiler.current_label == 1,
    {
        Self {
            program,
            machine_code: MachineCode::new(Vec::new()),
            labels: LabelTable::new(),
            current_label: 1,
        }
    }

    /// True when `outcome` is what compiling `program` yields.
    pub open spec fn is_outcome(program: ProgramView, outcome: Result<MachineCode, Error>) -> bool {
        match outcome {
            Ok(machine_code) => {
                &&& compile_program(program).error is None
                &&& machine_code.code@ == compile_program(program).code
            },
            Err(error) => compile_program(program).error == Some(error@),
        }
    }

    /// Compiles the program. What an earlier run has left in the compiler
    /// is dropped first, so that the outcome depends on the program alone.
    /// Where an error stops the run, no instruction is handed out and none
    /// stays in the compiler.
    pub fn compile(&mut self) -> (outcome: Result<MachineCode, Error>)
        ensures
            final(self).program == old(self).program,
            final(self).machine_code.code@ == compile_program(old(self).program@).code,
            final(self).labels@ == compile_program(old(self).program@).table,
            final(self).current_label == compile_program(old(self).program@).current,
            Self::is_outcome(old(self).program@, outcome),
    {
        self.machine_code = MachineCode::new(Vec::new());
        self.labels = LabelTable::new();
        self.current_label = 1;
        let ghost labels = self.program@.labels;
        let first = self.program.labels.clone();
        assert(label_views(first@) =~= labels);
        match self.setup_labels(first) {
            Ok(()) => {},
            Err(error) => {
                return Err(error);
            },
        }
        let second = self.program.labels.clone();
        assert(label_views(second@) =~= labels);
        match self.labels_compiler(second) {
            Ok(()) => {},
            Err(error) => {
                return Err(error);
            },
        }
        let end = MachineCodeInstruction::new(
            self.int_to_bytes(1),
            NOP,
            VOID,
            [0, 0, 0, 0],
            VOID,
            [0, 0, 0, 0],
        );
        self.machine_code.push(end);
        Ok(self.machine_code.clone())
    }

    /// The first pass: gives each label its address. Where the address of
    /// a label does not fit in four bytes, nothing is changed.
    pub fn setup_labels(&mut self, labels: Vec<Label>) -> (outcome: Result<(), Error>)
        ensures
            final(self).program == old(self).program,
            final(self).machine_code == old(self).machine_code,
            final(self).current_label == old(self).current_label,
            match outcome {
                Ok(()) => {
                    &&& addresses_fit(label_views(labels@))
                    &&& final(self).labels@ == label_table_onto(
                        old(self).labels@,
                        label_views(labels@),
                        labels@.len() as int,
                    )
                },
                Err(error) => {
                    &&& !addresses_fit(label_views(labels@))
                    &&& error@ == address_out_of_range()
                    &&& final(self).labels@ == old(self).labels@
                },
            },
    {
        let ghost views = label_views(labels@);
        let mut address: u32 = 1;
        let mut index: usize = 0;
        while index < labels.len()
            invariant
                index <= labels.len(),
                views == label_views(labels@),
                index < labels.len() ==> address == label_address(views, index as int),
                index == labels.len() ==> addresses_fit(views),
                *self == *old(self),
            decreases labels.len() - index,
        {
            let size = labels[index].program.len();
            proof {
                if index + 1 < labels.len() {
                    lemma_label_addresses_grow(views, index + 1, views.len() - 1);
                }
            }
            index += 1;
            if index < labels.len() {
                if size > (u32::MAX - address) as usize {
                    return Err(
                        Error::new(String::from_str("Label address out of range"), Span::new(0, 0)),
                    );
                }
                address += size as u32;
            }
        }
        address = 1;
        index = 0;
        while index < labels.len()
            invariant
                index <= labels.len(),
                views == label_views(labels@),
                addresses_fit(views),
                index < labels.len() ==> address == label_address(views, index as int),
                self.program == old(self).program,
                self.machine_code == old(self).machine_code,
                self.current_label == old(self).current_label,
                self.labels@ == label_table_onto(old(self).labels@, views, index as int),
            decreases labels.len() - index,
        {
            let size = labels[index].program.len();
            proof {
                if index + 1 < labels.len() {
                    lemma_label_addresses_grow(views, index + 1, views.len() - 1);
                }
            }
            self.labels.insert(labels[index].name.clone(), address);
            index += 1;
            if index < labels.len() {
                address += size as u32;
            }
        }
        Ok(())
    }

    /// The second pass: encodes the commands of each label under the
    /// label's address. Where an error stops it, no instruction is added and
    /// the label that was current stays current.
    pub fn labels_compiler(&mut self, labels: Vec<Label>) -> (outcome: Result<(), Error>)
        ensures
            final(self).program == old(self).program,
            final(self).labels == old(self).labels,
            ({
                let emitted = encode_labels(
                    old(self).labels@,
                    old(self).current_label,
                    label_views(labels@),
                    0,
                );
                &&& final(self).machine_code.code@ == old(self).machine_code.code@ + emitted.code
                &&& final(self).current_label == emitted.current
                &&& match outcome {
                    Ok(()) => emitted.error is None,
                    Err(error) => emitted.error == Some(error@),
                }
            }),
    {
        let ghost views = label_views(labels@);
        let ghost table = self.labels@;
        let ghost all = encode_labels(table, self.current_label, views, 0);
        let ghost before = self.machine_code.code@;
        let ghost done = Seq::<MachineCodeInstruction>::empty();
        let length = self.machine_code.code.len();
        let start = self.current_label;
        assert(done + all.code =~= all.code);
        assert(before + done =~= before);
        let mut index: usize = 0;
        while index < labels.len()
            invariant
                index <= labels.len(),
                views == label_views(labels@),
                table == old(self).labels@,
                before == old(self).machine_code.code@,
                length == before.len(),
                start == old(self).current_label,
                all == encode_labels(table, start, views, 0),
                self.program == old(self).program,
                self.labels == old(self).labels,
                self.machine_code.code@ == before + done,
                all == emitted_then(
                    done,
                    start,
                    encode_labels(table, self.current_label, views, index as int),
                ),
            decreases labels.len() - index,
        {
            let label = &labels[index];
            assert(views[index as int] == label@);
            let address = match self.labels.get(label.name.as_str()) {
                Some(address) => address,
                None => {
                    let mut message = String::from_str("Label not found: ");
                    message.append(label.name.as_str());
                    self.machine_code.code.truncate(length);
                    self.current_label = start;
                    assert(self.machine_code.code@ =~= before + Seq::<MachineCodeInstruction>::empty());
                    return Err(Error::new(message, Span::new(0, 0)));
                },
            };
            self.current_label = address;
            let commands = label.program.clone();
            assert(command_views(commands@) =~= label@.program);
            let ghost block = encode_commands(table, address, label@.program, 0);
            match self.command_compiler(commands) {
                Ok(()) => {
                    proof {
                        let rest = encode_labels(table, block.current, views, index + 1);
                        assert(before + done + block.code =~= before + (done + block.code));
                        assert(done + (block.code + rest.code) =~= (done + block.code) + rest.code);
                        done = done + block.code;
                    }
                },
                Err(error) => {
                    self.machine_code.code.truncate(length);
                    self.current_label = start;
                    assert(self.machine_code.code@ =~= before + Seq::<MachineCodeInstruction>::empty());
                    return Err(error);
                },
            }
            index += 1;
        }
        proof {
            assert(done + Seq::<MachineCodeInstruction>::empty() =~= done);
        }
        Ok(())
    }

    /// Encodes the commands of one block under the label that is current.
    /// Where an error stops it, no instruction is added and the label that
    /// was current stays current.
    pub fn command_compiler(&mut self, commands: Vec<Command>) -> (outcome: Result<(), Error>)
        ensures
            final(self).program == old(self).program,
            final(self).labels == old(self).labels,
            ({
                let emitted = encode_commands(
                    old(self).labels@,
                    old(self).current_label,
                    command_views(commands@),
                    0,
                );
                &&& final(self).machine_code.code@ == old(self).machine_code.code@ + emitted.code
                &&& final(self).current_label == emitted.current
                &&& match outcome {
                    Ok(()) => emitted.error is None,
                    Err(error) => emitted.error == Some(error@),
                }
            }),
    {
        let ghost views = command_views(commands@);
        let ghost table = self.labels@;
        let ghost all = encode_commands(table, self.current_label, views, 0);
        let ghost before = self.machine_code.code@;
        let ghost done = Seq::<MachineCodeInstruction>::empty();
        let length = self.machine_code.code.len();
        let start = self.current_label;
        assert(done + all.code =~= all.code);
        assert(before + done =~= before);
        let mut index: usize = 0;
        while index < commands.len()
            invariant
                index <= commands.len(),
                views == command_views(commands@),
                table == old(self).labels@,
                before == old(self).machine_code.code@,
                length == before.len(),
                start == old(self).current_label,
                all == encode_commands(table, start, views, 0),
                self.program == old(self).program,
                self.labels == old(self).labels,
                self.machine_code.code@ == before + done,
                all == emitted_then(
                    done,
                    start,
                    encode_commands(table, self.current_label, views, index as int),
                ),
            decreases commands.len() - index,
        {
            let command = &commands[index];
            assert(views[index as int] == command@);
            let (instruction, next) = match self.encode(command) {
                Ok(encoded) => encoded,
                Err(error) => {
                    self.machine_code.code.truncate(length);
                    self.current_label = start;
                    assert(self.machine_code.code@ =~= before + Seq::<MachineCodeInstruction>::empty());
                    return Err(error);
                },
            };
            self.machine_code.push(instruction);
            self.current_label = next;
            proof {
                let rest = encode_commands(table, next, views, index + 1);
                assert(before + done.push(instruction) =~= (before + done).push(instruction));
                assert(done + (seq![instruction] + rest.code) =~= done.push(instruction) + rest.code);
                done = done.push(instruction);
            }
            index += 1;
        }
        proof {
            assert(done + Seq::<MachineCodeInstruction>::empty() =~= done);
        }
        Ok(())
    }

    /// The instruction for one command, and the label that is current
    /// behind it.
    fn encode(&self, command: &Command) -> (outcome: Result<(MachineCodeInstruction, u32), Error>)
        ensures
            match outcome {
                Ok(encoded) => {
                    &&& encode_command(self.labels@, self.current_label, command@) == Ok::<
                        MachineCodeInstruction,
                        ErrorView,
                    >(encoded.0)
                    &&& encoded.1 == current_after(self.labels@, self.current_label, command@)
                },
                Err(error) => encode_command(self.labels@, self.current_label, command@) == Err::<
                    MachineCodeInstruction,
                    ErrorView,
                >(error@),
            },
    {
        let label = self.int_to_bytes(self.current_label);
        let nothing: [u8; 4] = [0, 0, 0, 0];
        match command {
            Command::Mov(mov) => {
                let (operand1_type, operand1) = self.memory_to_bytes(mov.0);
                match self.value_bytes(&mov.1) {
                    Ok((operand2_type, operand2)) => Ok(
                        (
                            MachineCodeInstruction::new(
                                label,
                                MOV,
                                operand1_type,
                                operand1,
                                operand2_type,
                                operand2,
                            ),
                            self.current_label,
                        ),
                    ),
                    Err(error) => Err(error),
                }
            },
            Command::Add(add) => {
                let (operand1_type, operand1) = self.memory_to_bytes(add.0);
                match self.value_bytes(&add.1) {
                    Ok((operand2_type, operand2)) => Ok(
                        (
                            MachineCodeInstruction::new(
                                label,
                                ADD,
                                operand1_type,
                                operand1,
                                operand2_type,
                                operand2,
                            ),
                            self.current_label,
                        ),
                    ),
                    Err(error) => Err(error),
                }
            },
            Command::Sub(sub) => {
                let (operand1_type, operand1) = self.memory_to_bytes(sub.0);
                match self.value_bytes(&sub.1) {
                    Ok((operand2_type, operand2)) => Ok(
                        (
                            MachineCodeInstruction::new(
                                label,
                                SUB,
                                operand1_type,
                                operand1,
                                operand2_type,
                                operand2,
                            ),
                            self.current_label,
                        ),
                    ),
                    Err(error) => Err(error),
                }
            },
            Command::Mul(mul) => {
                let (operand1_type, operand1) = self.memory_to_bytes(mul.0);
                Ok(
                    (
                        MachineCodeInstruction::new(
                            label,
                            MUL,
                            operand1_type,
                            operand1,
                            VOID,
                            nothing,
                        ),
                        self.current_label,
                    ),
                )
            },
            Command::Div(div) => {
                let (operand1_type, operand1) = self.memory_to_bytes(div.0);
                match self.value_bytes(&div.1) {
                    Ok((operand2_type, operand2)) => Ok(
                        (
                            MachineCodeInstruction::new(
                                label,
                                DIV,
                                operand1_type,
                                operand1,
                                operand2_type,
                                operand2,
                            ),
                            self.current_label,
                        ),
                    ),
                    Err(error) => Err(error),
                }
            },
            Command::Pop(pop) => {
                let (operand1_type, operand1) = self.memory_to_bytes(pop.0);
                Ok(
                    (
                        MachineCodeInstruction::new(
                            label,
                            POP,
                            operand1_type,
                            operand1,
                            VOID,
                            nothing,
                        ),
                        self.current_label,
                    ),
                )
            },
            Command::Call(call) => {
                match self.labels.get(call.0.as_str()) {
                    Some(target) => Ok(
                        (
                            MachineCodeInstruction::new(
                                label,
                                CALL,
                                LABEL,
                                self.int_to_bytes(target),
                                VOID,
                                nothing,
                            ),
                            target,
                        ),
                    ),
                    None => Err(label_not_found_error(call.0.as_str(), call.1)),
                }
            },
            Command::Allow(allow) => {
                let (operand1_type, operand1) = match self.value_bytes(&allow.0) {
                    Ok(operand) => operand,
                    Err(error) => {
                        return Err(error);
                    },
                };
                match self.value_bytes(&allow.1) {
                    Ok((operand2_type, operand2)) => Ok(
                        (
                            MachineCodeInstruction::new(
                                label,
                                ALLOW,
                                operand1_type,
                                operand1,
                                operand2_type,
                                operand2,
                            ),
                            self.current_label,
                        ),
                    ),
                    Err(error) => Err(error),
                }
            },
        }
    }

    /// The four bytes of a register's code.
    pub fn register_to_bytes(&self, reg: Register) -> (bytes: [u8; 4])
        ensures
            bytes == le_bytes(reg.spec_code()),
    {
        self.int_to_bytes(reg.code())
    }

    /// The four bytes of a number, least significant first.
    pub fn int_to_bytes(&self, value: u32) -> (bytes: [u8; 4])
        ensures
            bytes == le_bytes(value),
    {
        let bytes = [
            (value % 256) as u8,
            (value / 256 % 256) as u8,
            (value / 65536 % 256) as u8,
            (value / 16777216) as u8,
        ];
        bytes
    }

    /// The operand for a place.
    pub fn memory_to_bytes(&self, mem: MemoryFetching) -> (operand: (u8, [u8; 4]))
        ensures
            operand == place_operand(mem),
    {
        match mem {
            MemoryFetching::Register(reg) => (REG, self.register_to_bytes(reg)),
            MemoryFetching::Addr(address) => (MEM, self.int_to_bytes(address)),
        }
    }

    /// The operand for a value. A label that is not in the table is an
    /// error at the place where its name was written.
    pub fn expr_to_bytes(&self, expr: Expr) -> (outcome: Result<(u8, [u8; 4]), Error>)
        ensures
            match outcome {
                Ok(operand) => value_operand(self.labels@, expr@) == Ok::<(u8, [u8; 4]), ErrorView>(
                    operand,
                ),
                Err(error) => value_operand(self.labels@, expr@) == Err::<(u8, [u8; 4]), ErrorView>(
                    error@,
                ),
            },
    {
        self.value_bytes(&expr)
    }

    /// The operand for a value that is borrowed.
    fn value_bytes(&self, expr: &Expr) -> (outcome: Result<(u8, [u8; 4]), Error>)
        ensures
            match outcome {
                Ok(operand) => value_operand(self.labels@, expr@) == Ok::<(u8, [u8; 4]), ErrorView>(
                    operand,
                ),
                Err(error) => value_operand(self.labels@, expr@) == Err::<(u8, [u8; 4]), ErrorView>(
                    error@,
                ),
            },
    {
        match expr {
            Expr::Int(number) => Ok((INT, self.int_to_bytes(bits_of(*number)))),
            Expr::Label(name, span) => match self.labels.get(name.as_str()) {
                Some(address) => Ok((LABEL, self.int_to_bytes(address))),
                None => Err(label_not_found_error(name.as_str(), *span)),
            },
            Expr::Memory(mem) => Ok(self.memory_to_bytes(*mem)),
        }
    }
}

/// The bits of a number with a sign, as a number without one.
fn bits_of(value: i32) -> (bits: u32)
    ensures
        bits == signed_bits(value),
{
    if value >= 0 {
        value as u32
    } else {
        (value as i64 + 0x1_0000_0000i64) as u32
    }
}

fn label_not_found_error(name: &str, span: Span) -> (error: Error)
    ensures
        error@ == label_not_found(name@, span),
{
    let mut message = String::from_str("Label not found: ");
    message.append(name);
    Error::new(message, span)
}

} // verus!
