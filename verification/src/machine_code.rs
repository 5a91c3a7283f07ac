//! Instruction records, and the three forms in which they are written out:
//! binary digits, hexadecimal digits, and raw bytes.

use vstd::prelude::*;
use vstd::string::*;

pub use crate::compiler::MachineCodeCompiler;
use crate::text::{digits, digits_of};
use crate::Mode;

verus! {

/// Operand type: no operand.
pub const VOID: u8 = 0x0;

/// Operand type: a register, by its code.
pub const REG: u8 = 0x1;

/// Operand type: a number.
pub const INT: u8 = 0x2;

/// Operand type: the address of a label.
pub const LABEL: u8 = 0x3;

/// Operand type: an address in memory.
pub const MEM: u8 = 0x4;

/// Operation: `mov`.
pub const MOV: u8 = 0x11;

/// Operation: `add`.
pub const ADD: u8 = 0x12;

/// Operation: `sub`.
pub const SUB: u8 = 0x13;

/// Operation: `mul`.
pub const MUL: u8 = 0x14;

/// Operation: `div`.
pub const DIV: u8 = 0x15;

/// Operation: `pop`.
pub const POP: u8 = 0x16;

/// Operation: `call`.
pub const CALL: u8 = 0x17;

/// Operation: `allow`.
pub const ALLOW: u8 = 0x18;

/// Operation: none; the instruction that ends a program.
pub const NOP: u8 = 0x19;

/// The number of bytes that one instruction takes when written out raw.
pub const INSTRUCTION_BYTES: usize = 15;

/// The four bytes of `value`, least significant first.
pub open spec fn le_bytes(value: u32) -> [u8; 4] {
    [
        (value % 256) as u8,
        (value / 256 % 256) as u8,
        (value / 65536 % 256) as u8,
        (value / 16777216) as u8,
    ]
}

/// The number whose four bytes, least significant first, are `bytes`.
pub open spec fn le_value(bytes: [u8; 4]) -> int {
    bytes[0] + 256 * bytes[1] + 65536 * bytes[2] + 16777216 * bytes[3]
}

/// The four bytes of a number tell the number.
pub proof fn lemma_le_bytes_tell_the_value(value: u32)
    ensures
        le_value(le_bytes(value)) == value,
{
    let v = value as int;
    let low = v % 65536;
    let high = v / 65536;
    assert(v == 65536 * high + low);
    assert(low == 256 * (low / 256) + low % 256);
    assert(low % 256 == v % 256);
    assert(low / 256 == v / 256 % 256);
    assert(high == 256 * (high / 256) + high % 256);
    assert(high % 256 == v / 65536 % 256);
    assert(high / 256 == v / 16777216);
}

/// A number put together from four bytes has these bytes.
pub proof fn lemma_value_tells_le_bytes(bytes: [u8; 4])
    ensures
        0 <= le_value(bytes) <= u32::MAX,
        le_bytes(le_value(bytes) as u32) == bytes,
{
    let v = le_value(bytes);
    let high = bytes[2] + 256 * bytes[3];
    let low = bytes[0] + 256 * bytes[1];
    assert(v == 65536 * high + low);
    assert(v / 65536 == high && v % 65536 == low);
    assert(v % 256 == bytes[0]);
    assert(v / 256 % 256 == bytes[1]);
    assert(v / 65536 % 256 == bytes[2]);
    assert(v / 16777216 == bytes[3]);
    assert(le_bytes(v as u32) =~= bytes);
}

/// One instruction: the address of the label that it runs under, the
/// operation, and two operands, each with its type.
#[derive(Copy, Clone, PartialEq, Eq, Debug)]
pub struct MachineCodeInstruction {
    pub label: [u8; 4],
    pub instr: u8,
    pub operand1_type: u8,
    pub operand1: [u8; 4],
    pub operand2_type: u8,
    pub operand2: [u8; 4],
}

/// `text` with as many zeros in front as it takes to make it `width`
/// characters long; a text that is as long or longer stays as it is.
pub open spec fn zero_padded(text: Seq<char>, width: nat) -> Seq<char> {
    if text.len() >= width {
        text
    } else {
        Seq::new((width - text.len()) as nat, |i: int| '0') + text
    }
}

/// The parts in a row, with the separator between each two.
pub open spec fn joined(parts: Seq<Seq<char>>, separator: Seq<char>) -> Seq<char>
    decreases parts.len(),
{
    if parts.len() == 0 {
        Seq::empty()
    } else if parts.len() == 1 {
        parts[0]
    } else {
        joined(parts.drop_last(), separator) + separator + parts.last()
    }
}

/// One byte as digits of the given base, padded to `width`.
pub open spec fn byte_text(byte: u8, base: nat, width: nat) -> Seq<char> {
    zero_padded(digits(byte as nat, base), width)
}

/// Four bytes, each as digits of the given base padded to `width`, in the
/// order in which they are stored.
pub open spec fn word_text(bytes: [u8; 4], base: nat, width: nat, separator: Seq<char>) -> Seq<
    char,
> {
    joined(
        seq![
            byte_text(bytes[0], base, width),
            byte_text(bytes[1], base, width),
            byte_text(bytes[2], base, width),
            byte_text(bytes[3], base, width),
        ],
        separator,
    )
}

/// What separates the groups of digits: a space in debug mode, nothing
/// otherwise.
pub open spec fn separator(mode: Mode) -> Seq<char> {
    match mode {
        Mode::Debug => " "@,
        Mode::Release => ""@,
    }
}

/// An instruction as digits of the given base: the label's four bytes, the
/// operation padded to `instr_width`, then for each operand its type padded
/// to `type_width` and its four bytes. Each byte of a label or an operand
/// is padded to `byte_width`.
pub open spec fn instruction_text(
    instruction: MachineCodeInstruction,
    base: nat,
    instr_width: nat,
    type_width: nat,
    byte_width: nat,
    separator: Seq<char>,
) -> Seq<char> {
    joined(
        seq![
            word_text(instruction.label, base, byte_width, separator),
            byte_text(instruction.instr, base, instr_width),
            byte_text(instruction.operand1_type, base, type_width),
            word_text(instruction.operand1, base, byte_width, separator),
            byte_text(instruction.operand2_type, base, type_width),
            word_text(instruction.operand2, base, byte_width, separator),
        ],
        separator,
    )
}

/// An instruction in binary digits: bytes of eight digits, the operation
/// of seven, an operand's type of four.
pub open spec fn binary_text(instruction: MachineCodeInstruction, mode: Mode) -> Seq<char> {
    instruction_text(instruction, 2, 7, 4, 8, separator(mode))
}

/// An instruction in hexadecimal digits, each group padded to four.
pub open spec fn hex_text(instruction: MachineCodeInstruction, mode: Mode) -> Seq<char> {
    instruction_text(instruction, 16, 4, 4, 4, separator(mode))
}

/// The bytes of an instruction: the label's four, one for the operation,
/// then for each operand one for its type and its four bytes; fifteen in
/// all.
pub open spec fn instruction_bytes(instruction: MachineCodeInstruction) -> Seq<u8> {
    instruction.label@ + seq![instruction.instr] + seq![instruction.operand1_type]
        + instruction.operand1@ + seq![instruction.operand2_type] + instruction.operand2@
}

/// The instruction that the given bytes hold, if they are as many as one
/// instruction takes.
pub open spec fn instruction_from_bytes(bytes: Seq<u8>) -> Option<MachineCodeInstruction> {
    if bytes.len() == INSTRUCTION_BYTES {
        Some(
            MachineCodeInstruction {
                label: [bytes[0], bytes[1], bytes[2], bytes[3]],
                instr: bytes[4],
                operand1_type: bytes[5],
                operand1: [bytes[6], bytes[7], bytes[8], bytes[9]],
                operand2_type: bytes[10],
                operand2: [bytes[11], bytes[12], bytes[13], bytes[14]],
            },
        )
    } else {
        None
    }
}

/// Reading back the bytes of an instruction gives the instruction: its
/// label, its operation, both operand types and both operands.
pub proof fn lemma_bytecode_round_trip(instruction: MachineCodeInstruction)
    ensures
        instruction_bytes(instruction).len() == INSTRUCTION_BYTES,
        instruction_from_bytes(instruction_bytes(instruction)) == Some(instruction),
{
    let bytes = instruction_bytes(instruction);
    let back = instruction_from_bytes(bytes)->Some_0;
    assert(back.label =~= instruction.label);
    assert(back.operand1 =~= instruction.operand1);
    assert(back.operand2 =~= instruction.operand2);
}

/// Puts zeros in front of `string` until it is `size` characters long.
pub fn add_zero(string: String, size: usize) -> (padded: String)
    ensures
        padded@ == zero_padded(string@, size as nat),
{
    let length = string.as_str().unicode_len();
    if length >= size {
        return string;
    }
    let mut padded = String::new();
    let mut count: usize = 0;
    while count < size - length
        invariant
            length < size,
            count <= size - length,
            padded@ == Seq::new(count as nat, |i: int| '0'),
        decreases size - length - count,
    {
        proof {
            reveal_strlit("0");
        }
        padded.append("0");
        count += 1;
    }
    padded.append(string.as_str());
    padded
}

/// One byte as digits of base 2 or 16, padded to `width`.
fn byte_string(byte: u8, base: u8, width: usize) -> (text: String)
    requires
        base == 2 || base == 16,
    ensures
        text@ == byte_text(byte, base as nat, width as nat),
{
    add_zero(digits_of(byte as usize, base as usize), width)
}

/// Four bytes as digits of base 2 or 16, each padded to `width`.
fn word_string(bytes: &[u8; 4], base: u8, width: usize, separator: &str) -> (text: String)
    requires
        base == 2 || base == 16,
    ensures
        text@ == word_text(*bytes, base as nat, width as nat, separator@),
{
    let mut text = byte_string(bytes[0], base, width);
    let ghost parts = seq![
        byte_text(bytes[0], base as nat, width as nat),
        byte_text(bytes[1], base as nat, width as nat),
        byte_text(bytes[2], base as nat, width as nat),
        byte_text(bytes[3], base as nat, width as nat),
    ];
    proof {
        lemma_joined_step(parts, 1, separator@);
        lemma_joined_step(parts, 2, separator@);
    }
    text.append(separator);
    text.append(byte_string(bytes[1], base, width).as_str());
    text.append(separator);
    text.append(byte_string(bytes[2], base, width).as_str());
    text.append(separator);
    text.append(byte_string(bytes[3], base, width).as_str());
    text
}

/// Joining one part more puts the separator and the part behind what was
/// joined before.
pub proof fn lemma_joined_step(parts: Seq<Seq<char>>, count: int, separator: Seq<char>)
    requires
        1 <= count < parts.len(),
    ensures
        joined(parts.take(count + 1), separator) == joined(parts.take(count), separator) + separator
            + parts[count],
{
    assert(parts.take(count + 1).drop_last() =~= parts.take(count));
}

impl MachineCodeInstruction {
    pub fn new(
        label: [u8; 4],
        instr: u8,
        operand1_type: u8,
        operand1: [u8; 4],
        operand2_type: u8,
        operand2: [u8; 4],
    ) -> (instruction: Self)
        ensures
            instruction == (MachineCodeInstruction {
                label,
                instr,
                operand1_type,
                operand1,
                operand2_type,
                operand2,
            }),
    {
        Self { label, instr, operand1_type, operand1, operand2_type, operand2 }
    }

    /// The instruction as digits of base 2 or 16.
    fn digits_string(
        &self,
        base: u8,
        instr_width: usize,
        type_width: usize,
        byte_width: usize,
        separator: &str,
    ) -> (text: String)
        requires
            base == 2 || base == 16,
        ensures
            text@ == instruction_text(
                *self,
                base as nat,
                instr_width as nat,
                type_width as nat,
                byte_width as nat,
                separator@,
            ),
    {
        let ghost parts = seq![
            word_text(self.label, base as nat, byte_width as nat, separator@),
            byte_text(self.instr, base as nat, instr_width as nat),
            byte_text(self.operand1_type, base as nat, type_width as nat),
            word_text(self.operand1, base as nat, byte_width as nat, separator@),
            byte_text(self.operand2_type, base as nat, type_width as nat),
            word_text(self.operand2, base as nat, byte_width as nat, separator@),
        ];
        proof {
            lemma_joined_step(parts, 1, separator@);
            lemma_joined_step(parts, 2, separator@);
            lemma_joined_step(parts, 3, separator@);
            lemma_joined_step(parts, 4, separator@);
        }
        let mut text = word_string(&self.label, base, byte_width, separator);
        text.append(separator);
        text.append(byte_string(self.instr, base, instr_width).as_str());
        text.append(separator);
        text.append(byte_string(self.operand1_type, base, type_width).as_str());
        text.append(separator);
        text.append(word_string(&self.operand1, base, byte_width, separator).as_str());
        text.append(separator);
        text.append(byte_string(self.operand2_type, base, type_width).as_str());
        text.append(separator);
        text.append(word_string(&self.operand2, base, byte_width, separator).as_str());
        text
    }

    /// The instruction in binary digits.
    pub fn binary_string(&self, mode: &Mode) -> (text: String)
        ensures
            text@ == binary_text(*self, *mode),
    {
        let space = if mode.is_debug() {
            " "
        } else {
            ""
        };
        self.digits_string(2, 7, 4, 8, space)
    }

    /// The instruction in hexadecimal digits.
    pub fn hex_string(&self, mode: &Mode) -> (text: String)
        ensures
            text@ == hex_text(*self, *mode),
    {
        let space = if mode.is_debug() {
            " "
        } else {
            ""
        };
        self.digits_string(16, 4, 4, 4, space)
    }

    /// The instruction as raw bytes.
    pub fn to_bytecode(&self) -> (bytecode: Vec<u8>)
        ensures
            bytecode@ == instruction_bytes(*self),
            bytecode@.len() == INSTRUCTION_BYTES,
    {
        let mut bytecode: Vec<u8> = Vec::new();
        bytecode.push(self.label[0]);
        bytecode.push(self.label[1]);
        bytecode.push(self.label[2]);
        bytecode.push(self.label[3]);
        bytecode.push(self.instr);
        bytecode.push(self.operand1_type);
        bytecode.push(self.operand1[0]);
        bytecode.push(self.operand1[1]);
        bytecode.push(self.operand1[2]);
        bytecode.push(self.operand1[3]);
        bytecode.push(self.operand2_type);
        bytecode.push(self.operand2[0]);
        bytecode.push(self.operand2[1]);
        bytecode.push(self.operand2[2]);
        bytecode.push(self.operand2[3]);
        bytecode
    }

    /// The instruction that raw bytes hold; `None` unless they are as many
    /// as one instruction takes.
    pub fn from_bytecode(bytecode: Vec<u8>) -> (instruction: Option<Self>)
        ensures
            instruction == instruction_from_bytes(bytecode@),
    {
        if bytecode.len() != INSTRUCTION_BYTES {
            return None;
        }
        let instruction = Self {
            label: [bytecode[0], bytecode[1], bytecode[2], bytecode[3]],
            instr: bytecode[4],
            operand1_type: bytecode[5],
            operand1: [bytecode[6], bytecode[7], bytecode[8], bytecode[9]],
            operand2_type: bytecode[10],
            operand2: [bytecode[11], bytecode[12], bytecode[13], bytecode[14]],
        };
        Some(instruction)
    }
}

/// A program in binary digits: each instruction on a line of its own.
pub open spec fn binary_listing(code: Seq<MachineCodeInstruction>, mode: Mode) -> Seq<char>
    decreases code.len(),
{
    if code.len() == 0 {
        Seq::empty()
    } else {
        binary_listing(code.drop_last(), mode) + binary_text(code.last(), mode) + "\n"@
    }
}

/// A program in hexadecimal digits: each instruction on a line of its own.
pub open spec fn hex_listing(code: Seq<MachineCodeInstruction>, mode: Mode) -> Seq<char>
    decreases code.len(),
{
    if code.len() == 0 {
        Seq::empty()
    } else {
        hex_listing(code.drop_last(), mode) + hex_text(code.last(), mode) + "\n"@
    }
}

/// A program as raw bytes: the bytes of its instructions in a row.
pub open spec fn code_bytes(code: Seq<MachineCodeInstruction>) -> Seq<u8>
    decreases code.len(),
{
    if code.len() == 0 {
        Seq::empty()
    } else {
        code_bytes(code.drop_last()) + instruction_bytes(code.last())
    }
}

/// The instructions of a program, in the order in which they run.
#[derive(Debug)]
pub struct MachineCode {
    pub code: Vec<MachineCodeInstruction>,
}

impl Clone for MachineCode {
    fn clone(&self) -> (copy: Self)
        ensures
            copy.code@ == self.code@,
    {
        let code = self.code.clone();
        MachineCode { code }
    }
}

impl MachineCode {
    pub fn new(code: Vec<MachineCodeInstruction>) -> (machine_code: Self)
        ensures
            machine_code.code == code,
    {
        Self { code }
    }

    /// Appends one instruction.
    pub fn push(&mut self, instr: MachineCodeInstruction)
        ensures
            final(self).code@ == old(self).code@.push(instr),
    {
        self.code.push(instr);
    }

    /// Appends the given instructions in their order.
    pub fn extend(&mut self, instrs: Vec<MachineCodeInstruction>)
        ensures
            final(self).code@ == old(self).code@ + instrs@,
    {
        let mut index: usize = 0;
        while index < instrs.len()
            invariant
                index <= instrs.len(),
                self.code@ == old(self).code@ + instrs@.take(index as int),
            decreases instrs.len() - index,
        {
            self.code.push(instrs[index]);
            index += 1;
        }
    }

    /// The last instruction, to be changed in place.
    pub fn last_mut(&mut self) -> (last: Option<&mut MachineCodeInstruction>)
        ensures
            old(self).code@.len() == 0 ==> last is None && final(self).code@ == old(self).code@,
            old(self).code@.len() > 0 ==> last is Some && *last->Some_0 == old(self).code@.last()
                && final(self).code@ == old(self).code@.update(
                old(self).code@.len() - 1,
                *final(last->Some_0),
            ),
    {
        let length = self.code.len();
        if length == 0 {
            None
        } else {
            Some(&mut self.code[length - 1])
        }
    }

    /// Whether an instruction runs under the label at `addr`.
    pub fn contains_addr_instr(&self, addr: u32) -> (found: bool)
        ensures
            found == exists|i: int|
                0 <= i < self.code@.len() && le_value((#[trigger] self.code@[i]).label) == addr,
    {
        let mut index: usize = 0;
        while index < self.code.len()
            invariant
                index <= self.code.len(),
                forall|i: int| 0 <= i < index ==> le_value((#[trigger] self.code@[i]).label) != addr,
            decreases self.code.len() - index,
        {
            let label = &self.code[index].label;
            let value: u64 = label[0] as u64 + 256 * (label[1] as u64) + 65536 * (label[2] as u64)
                + 16777216 * (label[3] as u64);
            if value == addr as u64 {
                return true;
            }
            index += 1;
        }
        false
    }

    /// The program in binary digits, a line for each instruction.
    pub fn binary_string(&self, mode: &Mode) -> (text: String)
        ensures
            text@ == binary_listing(self.code@, *mode),
    {
        let mut text = String::new();
        let mut index: usize = 0;
        while index < self.code.len()
            invariant
                index <= self.code.len(),
                text@ == binary_listing(self.code@.take(index as int), *mode),
            decreases self.code.len() - index,
        {
            proof {
                assert(self.code@.take(index + 1).drop_last() =~= self.code@.take(index as int));
            }
            text.append(self.code[index].binary_string(mode).as_str());
            text.append("\n");
            index += 1;
        }
        assert(self.code@.take(index as int) =~= self.code@);
        text
    }

    /// The program in hexadecimal digits, a line for each instruction.
    pub fn hex_string(&self, mode: &Mode) -> (text: String)
        ensures
            text@ == hex_listing(self.code@, *mode),
    {
        let mut text = String::new();
        let mut index: usize = 0;
        while index < self.code.len()
            invariant
                index <= self.code.len(),
                text@ == hex_listing(self.code@.take(index as int), *mode),
            decreases self.code.len() - index,
        {
            proof {
                assert(self.code@.take(index + 1).drop_last() =~= self.code@.take(index as int));
            }
            text.append(self.code[index].hex_string(mode).as_str());
            text.append("\n");
            index += 1;
        }
        assert(self.code@.take(index as int) =~= self.code@);
        text
    }

    /// The program as raw bytes.
    pub fn to_bytecode(&self) -> (bytecode: Vec<u8>)
        ensures
            bytecode@ == code_bytes(self.code@),
    {
        let mut bytecode: Vec<u8> = Vec::new();
        let mut index: usize = 0;
        while index < self.code.len()
            invariant
                index <= self.code.len(),
                bytecode@ == code_bytes(self.code@.take(index as int)),
            decreases self.code.len() - index,
        {
            proof {
                assert(self.code@.take(index + 1).drop_last() =~= self.code@.take(index as int));
            }
            let mut bytes = self.code[index].to_bytecode();
            bytecode.append(&mut bytes);
            index += 1;
        }
        assert(self.code@.take(index as int) =~= self.code@);
        bytecode
    }
}

} // verus!
