//! The syntax tree: a program is a sequence of labelled blocks, and a block
//! is a sequence of commands on registers, addresses, numbers and labels.

use vstd::prelude::*;

use crate::span::Span;
use crate::text::str_eq;

verus! {

/// The sixteen registers.
#[derive(Copy, Clone, PartialEq, Eq, Structural, Debug)]
pub enum Register {
    R1,
    R2,
    R3,
    R4,
    R5,
    R6,
    R7,
    R8,
    R9,
    R10,
    R11,
    R12,
    R13,
    R14,
    R15,
    Rbp,
}

impl Register {
    /// The number that stands for the register in an instruction.
    pub open spec fn spec_code(self) -> u32 {
        match self {
            Register::R1 => 0x01,
            Register::R2 => 0x02,
            Register::R3 => 0x03,
            Register::R4 => 0x04,
            Register::R5 => 0x05,
            Register::R6 => 0x06,
            Register::R7 => 0x07,
            Register::R8 => 0x08,
            Register::R9 => 0x09,
            Register::R10 => 0x0a,
            Register::R11 => 0x0b,
            Register::R12 => 0x0c,
            Register::R13 => 0x0d,
            Register::R14 => 0x0e,
            Register::R15 => 0x0f,
            Register::Rbp => 0x10,
        }
    }

    /// The name by which the source text calls the register.
    pub open spec fn spec_name(self) -> Seq<char> {
        match self {
            Register::R1 => "r1"@,
            Register::R2 => "r2"@,
            Register::R3 => "r3"@,
            Register::R4 => "r4"@,
            Register::R5 => "r5"@,
            Register::R6 => "r6"@,
            Register::R7 => "r7"@,
            Register::R8 => "r8"@,
            Register::R9 => "r9"@,
            Register::R10 => "r10"@,
            Register::R11 => "r11"@,
            Register::R12 => "r12"@,
            Register::R13 => "r13"@,
            Register::R14 => "r14"@,
            Register::R15 => "r15"@,
            Register::Rbp => "rbp"@,
        }
    }

    /// The register that has the given code, if one has.
    pub open spec fn spec_from_code(code: u8) -> Option<Register> {
        if code == 0x01 {
            Some(Register::R1)
        }         else if code == 0x02 {
            Some(Register::R2)
        }         else if code == 0x03 {
            Some(Register::R3)
        }         else if code == 0x04 {
            Some(Register::R4)
        }         else if code == 0x05 {
            Some(Register::R5)
        }         else if code == 0x06 {
            Some(Register::R6)
        }         else if code == 0x07 {
            Some(Register::R7)
        }         else if code == 0x08 {
            Some(Register::R8)
        }         else if code == 0x09 {
            Some(Register::R9)
        }         else if code == 0x0a {
            Some(Register::R10)
        }         else if code == 0x0b {
            Some(Register::R11)
        }         else if code == 0x0c {
            Some(Register::R12)
        }         else if code == 0x0d {
            Some(Register::R13)
        }         else if code == 0x0e {
            Some(Register::R14)
        }         else if code == 0x0f {
            Some(Register::R15)
        }         else if code == 0x10 {
            Some(Register::Rbp)
        } else {
            None
        }
    }

    /// The register that the given name calls, if it calls one.
    pub open spec fn spec_from_name(name: Seq<char>) -> Option<Register> {
        if name == "r1"@ {
            Some(Register::R1)
        }         else if name == "r2"@ {
            Some(Register::R2)
        }         else if name == "r3"@ {
            Some(Register::R3)
        }         else if name == "r4"@ {
            Some(Register::R4)
        }         else if name == "r5"@ {
            Some(Register::R5)
        }         else if name == "r6"@ {
            Some(Register::R6)
        }         else if name == "r7"@ {
            Some(Register::R7)
        }         else if name == "r8"@ {
            Some(Register::R8)
        }         else if name == "r9"@ {
            Some(Register::R9)
        }         else if name == "r10"@ {
            Some(Register::R10)
        }         else if name == "r11"@ {
            Some(Register::R11)
        }         else if name == "r12"@ {
            Some(Register::R12)
        }         else if name == "r13"@ {
            Some(Register::R13)
        }         else if name == "r14"@ {
            Some(Register::R14)
        }         else if name == "r15"@ {
            Some(Register::R15)
        }         else if name == "rbp"@ {
            Some(Register::Rbp)
        } else {
            None
        }
    }

    /// The number that stands for the register in an instruction.
    pub fn code(&self) -> (code: u32)
        ensures
            code == self.spec_code(),
            1 <= code <= 16,
    {
        match self {
            Register::R1 => 0x01,
            Register::R2 => 0x02,
            Register::R3 => 0x03,
            Register::R4 => 0x04,
            Register::R5 => 0x05,
            Register::R6 => 0x06,
            Register::R7 => 0x07,
            Register::R8 => 0x08,
            Register::R9 => 0x09,
            Register::R10 => 0x0a,
            Register::R11 => 0x0b,
            Register::R12 => 0x0c,
            Register::R13 => 0x0d,
            Register::R14 => 0x0e,
            Register::R15 => 0x0f,
            Register::Rbp => 0x10,
        }
    }

    /// The name by which the source text calls the register.
    pub fn name(&self) -> (name: &'static str)
        ensures
            name@ == self.spec_name(),
    {
        match self {
            Register::R1 => "r1",
            Register::R2 => "r2",
            Register::R3 => "r3",
            Register::R4 => "r4",
            Register::R5 => "r5",
            Register::R6 => "r6",
            Register::R7 => "r7",
            Register::R8 => "r8",
            Register::R9 => "r9",
            Register::R10 => "r10",
            Register::R11 => "r11",
            Register::R12 => "r12",
            Register::R13 => "r13",
            Register::R14 => "r14",
            Register::R15 => "r15",
            Register::Rbp => "rbp",
        }
    }

    /// The register that has the given code; `None` for a code that is not
    /// from 1 to 16.
    pub fn from_code(code: u8) -> (register: Option<Register>)
        ensures
            register == Register::spec_from_code(code),
            register is Some <==> 1 <= code <= 16,
            register matches Some(r) ==> r.spec_code() == code,
    {
        if code == 0x01 {
            Some(Register::R1)
        }         else if code == 0x02 {
            Some(Register::R2)
        }         else if code == 0x03 {
            Some(Register::R3)
        }         else if code == 0x04 {
            Some(Register::R4)
        }         else if code == 0x05 {
            Some(Register::R5)
        }         else if code == 0x06 {
            Some(Register::R6)
        }         else if code == 0x07 {
            Some(Register::R7)
        }         else if code == 0x08 {
            Some(Register::R8)
        }         else if code == 0x09 {
            Some(Register::R9)
        }         else if code == 0x0a {
            Some(Register::R10)
        }         else if code == 0x0b {
            Some(Register::R11)
        }         else if code == 0x0c {
            Some(Register::R12)
        }         else if code == 0x0d {
            Some(Register::R13)
        }         else if code == 0x0e {
            Some(Register::R14)
        }         else if code == 0x0f {
            Some(Register::R15)
        }         else if code == 0x10 {
            Some(Register::Rbp)
        } else {
            None
        }
    }

    /// The register that the given name calls; `None` for any other text.
    pub fn from_name(name: &str) -> (register: Option<Register>)
        ensures
            register == Register::spec_from_name(name@),
    {
        if str_eq(name, "r1") {
            Some(Register::R1)
        }         else if str_eq(name, "r2") {
            Some(Register::R2)
        }         else if str_eq(name, "r3") {
            Some(Register::R3)
        }         else if str_eq(name, "r4") {
            Some(Register::R4)
        }         else if str_eq(name, "r5") {
            Some(Register::R5)
        }         else if str_eq(name, "r6") {
            Some(Register::R6)
        }         else if str_eq(name, "r7") {
            Some(Register::R7)
        }         else if str_eq(name, "r8") {
            Some(Register::R8)
        }         else if str_eq(name, "r9") {
            Some(Register::R9)
        }         else if str_eq(name, "r10") {
            Some(Register::R10)
        }         else if str_eq(name, "r11") {
            Some(Register::R11)
        }         else if str_eq(name, "r12") {
            Some(Register::R12)
        }         else if str_eq(name, "r13") {
            Some(Register::R13)
        }         else if str_eq(name, "r14") {
            Some(Register::R14)
        }         else if str_eq(name, "r15") {
            Some(Register::R15)
        }         else if str_eq(name, "rbp") {
            Some(Register::Rbp)
        } else {
            None
        }
    }
}

/// An operand that names a place: a register, or an address in memory.
#[derive(Copy, Clone, PartialEq, Eq, Structural, Debug)]
pub enum MemoryFetching {
    Addr(u32),
    Register(Register),
}

/// An operand that gives a value: a number, the address of a label, or what
/// a place holds. A label is kept by its name, with the place where the
/// name was written.
#[derive(PartialEq, Debug)]
pub enum Expr {
    Int(i32),
    Label(String, Span),
    Memory(MemoryFetching),
}

/// An [`Expr`] with the label's name as a sequence of characters.
pub enum ExprView {
    Int(i32),
    Label(Seq<char>, Span),
    Memory(MemoryFetching),
}

impl View for Expr {
    type V = ExprView;

    open spec fn view(&self) -> ExprView {
        match self {
            Expr::Int(value) => ExprView::Int(*value),
            Expr::Label(name, span) => ExprView::Label(name@, *span),
            Expr::Memory(place) => ExprView::Memory(*place),
        }
    }
}

impl Clone for Expr {
    fn clone(&self) -> (copy: Self)
        ensures
            copy == *self,
    {
        match self {
            Expr::Int(value) => Expr::Int(*value),
            Expr::Label(name, span) => Expr::Label(name.clone(), *span),
            Expr::Memory(place) => Expr::Memory(*place),
        }
    }
}

/// `mov`: puts a value in a place.
#[derive(PartialEq, Debug)]
pub struct Mov(pub MemoryFetching, pub Expr);

/// `add`: adds a value to what a place holds.
#[derive(PartialEq, Debug)]
pub struct Add(pub MemoryFetching, pub Expr);

/// `sub`: takes a value from what a place holds.
#[derive(PartialEq, Debug)]
pub struct Sub(pub MemoryFetching, pub Expr);

/// `mul`: its one operand is a place.
#[derive(PartialEq, Debug)]
pub struct Mul(pub MemoryFetching);

/// `div`: divides what a place holds by a value.
#[derive(PartialEq, Debug)]
pub struct Div(pub MemoryFetching, pub Expr);

/// `pop`: its one operand is a place.
#[derive(PartialEq, Debug)]
pub struct Pop(pub MemoryFetching);

/// A call of a label, with the place where the label's name was written.
#[derive(PartialEq, Debug)]
pub struct Call(pub String, pub Span);

/// `allow`: a permission, given by two values.
#[derive(PartialEq, Debug)]
pub struct Allow(pub Expr, pub Expr);

impl Clone for Mov {
    fn clone(&self) -> (copy: Self)
        ensures
            copy == *self,
    {
        Mov(self.0, self.1.clone())
    }
}

impl Clone for Add {
    fn clone(&self) -> (copy: Self)
        ensures
            copy == *self,
    {
        Add(self.0, self.1.clone())
    }
}

impl Clone for Sub {
    fn clone(&self) -> (copy: Self)
        ensures
            copy == *self,
    {
        Sub(self.0, self.1.clone())
    }
}

impl Clone for Mul {
    fn clone(&self) -> (copy: Self)
        ensures
            copy == *self,
    {
        Mul(self.0)
    }
}

impl Clone for Div {
    fn clone(&self) -> (copy: Self)
        ensures
            copy == *self,
    {
        Div(self.0, self.1.clone())
    }
}

impl Clone for Pop {
    fn clone(&self) -> (copy: Self)
        ensures
            copy == *self,
    {
        Pop(self.0)
    }
}

impl Clone for Call {
    fn clone(&self) -> (copy: Self)
        ensures
            copy == *self,
    {
        Call(self.0.clone(), self.1)
    }
}

impl Clone for Allow {
    fn clone(&self) -> (copy: Self)
        ensures
            copy == *self,
    {
        Allow(self.0.clone(), self.1.clone())
    }
}

/// One command of a block.
#[derive(PartialEq, Debug)]
pub enum Command {
    Mov(Mov),
    Add(Add),
    Sub(Sub),
    Mul(Mul),
    Div(Div),
    Pop(Pop),
    Call(Call),
    Allow(Allow),
}

/// A [`Command`] with its operands by their views.
pub enum CommandView {
    Mov(MemoryFetching, ExprView),
    Add(MemoryFetching, ExprView),
    Sub(MemoryFetching, ExprView),
    Mul(MemoryFetching),
    Div(MemoryFetching, ExprView),
    Pop(MemoryFetching),
    Call(Seq<char>, Span),
    Allow(ExprView, ExprView),
}

impl View for Command {
    type V = CommandView;

    open spec fn view(&self) -> CommandView {
        match self {
            Command::Mov(c) => CommandView::Mov(c.0, c.1@),
            Command::Add(c) => CommandView::Add(c.0, c.1@),
            Command::Sub(c) => CommandView::Sub(c.0, c.1@),
            Command::Mul(c) => CommandView::Mul(c.0),
            Command::Div(c) => CommandView::Div(c.0, c.1@),
            Command::Pop(c) => CommandView::Pop(c.0),
            Command::Call(c) => CommandView::Call(c.0@, c.1),
            Command::Allow(c) => CommandView::Allow(c.0@, c.1@),
        }
    }
}

impl Clone for Command {
    fn clone(&self) -> (copy: Self)
        ensures
            copy == *self,
    {
        match self {
            Command::Mov(c) => Command::Mov(c.clone()),
            Command::Add(c) => Command::Add(c.clone()),
            Command::Sub(c) => Command::Sub(c.clone()),
            Command::Mul(c) => Command::Mul(c.clone()),
            Command::Div(c) => Command::Div(c.clone()),
            Command::Pop(c) => Command::Pop(c.clone()),
            Command::Call(c) => Command::Call(c.clone()),
            Command::Allow(c) => Command::Allow(c.clone()),
        }
    }
}

/// The views of a sequence of commands, in order.
pub open spec fn command_views(commands: Seq<Command>) -> Seq<CommandView> {
    commands.map_values(|c: Command| c@)
}

/// A named block of commands.
#[derive(PartialEq, Debug)]
pub struct Label {
    pub name: String,
    pub program: Vec<Command>,
}

/// A [`Label`] with its name and its commands by their views.
pub struct LabelView {
    pub name: Seq<char>,
    pub program: Seq<CommandView>,
}

impl View for Label {
    type V = LabelView;

    open spec fn view(&self) -> LabelView {
        LabelView { name: self.name@, program: command_views(self.program@) }
    }
}

impl Clone for Label {
    fn clone(&self) -> (copy: Self)
        ensures
            copy@ == self@,
    {
        let program = self.program.clone();
        Label { name: self.name.clone(), program }
    }
}

impl Label {
    pub fn new(name: String, program: Vec<Command>) -> (label: Label)
        ensures
            label.name == name,
            label.program == program,
    {
        Label { name, program }
    }
}

/// The views of a sequence of labels, in order.
pub open spec fn label_views(labels: Seq<Label>) -> Seq<LabelView> {
    labels.map_values(|l: Label| l@)
}

/// The whole of what is assembled: the labels in the order in which they
/// were written, which is the order in which they get their addresses.
#[derive(PartialEq, Debug)]
pub struct Program {
    pub labels: Vec<Label>,
}

/// A [`Program`] with its labels by their views.
pub struct ProgramView {
    pub labels: Seq<LabelView>,
}

impl View for Program {
    type V = ProgramView;

    open spec fn view(&self) -> ProgramView {
        ProgramView { labels: label_views(self.labels@) }
    }
}

impl Clone for Program {
    fn clone(&self) -> (copy: Self)
        ensures
            copy@ == self@,
    {
        let labels = self.labels.clone();
        assert(label_views(labels@) =~= label_views(self.labels@));
        Program { labels }
    }
}

impl Program {
    pub fn new(labels: Vec<Label>) -> (program: Program)
        ensures
            program.labels == labels,
    {
        Program { labels }
    }
}

/// True when the place that a value remembers can be cut out of the text
/// with the given bytes.
pub open spec fn expr_span_fits(value: ExprView, bytes: Seq<u8>) -> bool {
    match value {
        ExprView::Label(name, span) => span.fits(bytes),
        _ => true,
    }
}

/// True when every place that a command remembers can be cut out of the
/// text with the given bytes.
pub open spec fn command_spans_fit(command: CommandView, bytes: Seq<u8>) -> bool {
    match command {
        CommandView::Mov(place, value) => expr_span_fits(value, bytes),
        CommandView::Add(place, value) => expr_span_fits(value, bytes),
        CommandView::Sub(place, value) => expr_span_fits(value, bytes),
        CommandView::Div(place, value) => expr_span_fits(value, bytes),
        CommandView::Call(name, span) => span.fits(bytes),
        CommandView::Allow(to, from) => expr_span_fits(to, bytes) && expr_span_fits(from, bytes),
        _ => true,
    }
}

/// True when every place that the commands remember can be cut out of the
/// text with the given bytes.
pub open spec fn block_spans_fit(commands: Seq<CommandView>, bytes: Seq<u8>) -> bool {
    forall|i: int| 0 <= i < commands.len() ==> command_spans_fit(#[trigger] commands[i], bytes)
}

/// True when every place that the labels remember can be cut out of the
/// text with the given bytes.
pub open spec fn program_spans_fit(labels: Seq<LabelView>, bytes: Seq<u8>) -> bool {
    forall|i: int| 0 <= i < labels.len() ==> block_spans_fit((#[trigger] labels[i]).program, bytes)
}

} // verus!
