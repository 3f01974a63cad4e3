use vstd::prelude::*;

use crate::value::{SpecValue, Value, ValueArray};

verus! {

/// The instructions of the virtual machine. `Constant` takes one operand
/// byte, the index of a value in the constant pool; the others take none.
#[derive(Debug, Clone, Copy, PartialEq, Eq, Structural)]
pub enum OpCode {
    Constant,
    Return,
    Negate,
    Add,
    Subtract,
    Multiple,
    Divide,
    Nil,
    True,
    False,
    Not,
    Equal,
    Greater,
    Less,
}

/// The number of opcodes; every byte below it encodes one.
pub const OPCODE_COUNT: u8 = 14;

/// The byte that encodes an opcode.
pub open spec fn opcode_byte(op: OpCode) -> u8 {
    match op {
        OpCode::Constant => 0,
        OpCode::Return => 1,
        OpCode::Negate => 2,
        OpCode::Add => 3,
        OpCode::Subtract => 4,
        OpCode::Multiple => 5,
        OpCode::Divide => 6,
        OpCode::Nil => 7,
        OpCode::True => 8,
        OpCode::False => 9,
        OpCode::Not => 10,
        OpCode::Equal => 11,
        OpCode::Greater => 12,
        OpCode::Less => 13,
    }
}

/// The opcode that a byte below `OPCODE_COUNT` encodes.
pub open spec fn opcode_of(b: u8) -> OpCode
    recommends
        b < 14,
{
    if b == 0 {
        OpCode::Constant
    } else if b == 1 {
        OpCode::Return
    } else if b == 2 {
        OpCode::Negate
    } else if b == 3 {
        OpCode::Add
    } else if b == 4 {
        OpCode::Subtract
    } else if b == 5 {
        OpCode::Multiple
    } else if b == 6 {
        OpCode::Divide
    } else if b == 7 {
        OpCode::Nil
    } else if b == 8 {
        OpCode::True
    } else if b == 9 {
        OpCode::False
    } else if b == 10 {
        OpCode::Not
    } else if b == 11 {
        OpCode::Equal
    } else if b == 12 {
        OpCode::Greater
    } else {
        OpCode::Less
    }
}

/// The name under which the disassembler shows an opcode.
pub open spec fn opcode_name(op: OpCode) -> Seq<char> {
    match op {
        OpCode::Constant => "OP_CONSTANT"@,
        OpCode::Return => "OP_RETURN"@,
        OpCode::Negate => "OP_NEGATE"@,
        OpCode::Add => "OP_ADD"@,
        OpCode::Subtract => "OP_SUBTRACT"@,
        OpCode::Multiple => "OP_MULTIPLE"@,
        OpCode::Divide => "OP_DIVIDE"@,
        OpCode::Nil => "OP_NIL"@,
        OpCode::True => "OP_TRUE"@,
        OpCode::False => "OP_FALSE"@,
        OpCode::Not => "OP_NOT"@,
        OpCode::Equal => "OP_EQUAL"@,
        OpCode::Greater => "OP_GREATER"@,
        OpCode::Less => "OP_LESS"@,
    }
}

impl OpCode {
    /// The name under which the disassembler shows the opcode.
    pub fn name(self) -> (n: &'static str)
        ensures
            n@ == opcode_name(self),
    {
        match self {
            OpCode::Constant => "OP_CONSTANT",
            OpCode::Return => "OP_RETURN",
            OpCode::Negate => "OP_NEGATE",
            OpCode::Add => "OP_ADD",
            OpCode::Subtract => "OP_SUBTRACT",
            OpCode::Multiple => "OP_MULTIPLE",
            OpCode::Divide => "OP_DIVIDE",
            OpCode::Nil => "OP_NIL",
            OpCode::True => "OP_TRUE",
            OpCode::False => "OP_FALSE",
            OpCode::Not => "OP_NOT",
            OpCode::Equal => "OP_EQUAL",
            OpCode::Greater => "OP_GREATER",
            OpCode::Less => "OP_LESS",
        }
    }

    /// The opcode that `b` encodes.
    pub fn from_byte(b: u8) -> (op: OpCode)
        requires
            b < OPCODE_COUNT,
        ensures
            op == opcode_of(b),
            opcode_byte(op) == b,
    {
        match b {
            0 => OpCode::Constant,
            1 => OpCode::Return,
            2 => OpCode::Negate,
            3 => OpCode::Add,
            4 => OpCode::Subtract,
            5 => OpCode::Multiple,
            6 => OpCode::Divide,
            7 => OpCode::Nil,
            8 => OpCode::True,
            9 => OpCode::False,
            10 => OpCode::Not,
            11 => OpCode::Equal,
            12 => OpCode::Greater,
            _ => OpCode::Less,
        }
    }

    /// The byte that encodes the opcode.
    pub fn to_byte(self) -> (b: u8)
        ensures
            b == opcode_byte(self),
            b < OPCODE_COUNT,
    {
        match self {
            OpCode::Constant => 0,
            OpCode::Return => 1,
            OpCode::Negate => 2,
            OpCode::Add => 3,
            OpCode::Subtract => 4,
            OpCode::Multiple => 5,
            OpCode::Divide => 6,
            OpCode::Nil => 7,
            OpCode::True => 8,
            OpCode::False => 9,
            OpCode::Not => 10,
            OpCode::Equal => 11,
            OpCode::Greater => 12,
            OpCode::Less => 13,
        }
    }
}

impl From<OpCode> for u8 {
    fn from(value: OpCode) -> (b: u8) {
        value.to_byte()
    }
}

impl vstd::std_specs::convert::FromSpecImpl<OpCode> for u8 {
    open spec fn obeys_from_spec() -> bool {
        true
    }

    open spec fn from_spec(v: OpCode) -> u8 {
        opcode_byte(v)
    }
}

/// Decoding a byte that encodes an opcode gives that opcode back, and
/// encoding an opcode gives a byte that decodes to it.
pub proof fn lemma_opcode_round_trip(op: OpCode, b: u8)
    ensures
        opcode_of(opcode_byte(op)) == op,
        opcode_byte(op) < 14,
        b < 14 ==> opcode_byte(opcode_of(b)) == b,
{
}

/// The model of a chunk: its bytecode, the source line of each byte, and
/// its constant pool.
#[verifier::ext_equal]
pub struct ChunkView {
    pub code: Seq<u8>,
    pub lines: Seq<usize>,
    pub constants: Seq<SpecValue>,
}

/// The most constants that a one-byte operand can name.
pub const MAX_CONSTANTS: usize = 256;

/// A sequence of bytecode with its line table and constant pool.
#[derive(Debug)]
pub struct Chunk {
    code: Vec<u8>,
    constants: ValueArray,
    lines: Vec<usize>,
}

impl View for Chunk {
    type V = ChunkView;

    closed spec fn view(&self) -> ChunkView {
        ChunkView { code: self.code@, lines: self.lines@, constants: self.constants@ }
    }
}

/// The number of bytes that the instruction encoded by `b` takes.
pub open spec fn instruction_len(b: u8) -> int {
    if b == 0 {
        2
    } else {
        1
    }
}

/// The bytes from `offset` on decode into whole instructions, each of which
/// has a line, and whose constant operands name values of the pool.
pub open spec fn decodes_from(c: ChunkView, offset: int) -> bool
    decreases c.code.len() - offset,
{
    if offset < 0 || offset > c.code.len() {
        false
    } else if offset == c.code.len() {
        true
    } else {
        let b = c.code[offset];
        &&& b < 14
        &&& offset < c.lines.len()
        &&& (b == 0 ==> offset + 1 < c.code.len() && (c.code[offset + 1] as int) < c.constants.len())
        &&& decodes_from(c, offset + instruction_len(b))
    }
}

/// What the disassembler shows of one instruction.
#[derive(Debug)]
pub struct Disassembled {
    /// Where the instruction starts.
    pub offset: usize,
    /// The instruction's source line, or `None` where it is the line of the
    /// byte before.
    pub line: Option<usize>,
    pub op: OpCode,
    /// For `Constant`: the operand byte and the value it names.
    pub operand: Option<(u8, Value)>,
    /// Where the next instruction starts.
    pub next: usize,
}

/// `d` shows the instruction of `c` that starts at `d.offset`: its line
/// (hidden where it repeats the line of the byte before), its opcode, its
/// constant operand, and where the next instruction starts.
pub open spec fn describes(c: ChunkView, d: Disassembled) -> bool {
    let offset = d.offset as int;
    let b = c.code[offset];
    &&& d.line == if offset > 0 && c.lines[offset] == c.lines[offset - 1] {
        None
    } else {
        Some(c.lines[offset])
    }
    &&& d.op == opcode_of(b)
    &&& d.next == offset + instruction_len(b)
    &&& d.op == OpCode::Constant ==> (d.operand matches Some((i, v)) && i == c.code[offset + 1]
        && v@ == c.constants[i as int])
    &&& d.op != OpCode::Constant ==> d.operand is None
}

impl Chunk {
    pub fn new() -> (c: Chunk)
        ensures
            c@.code == Seq::<u8>::empty(),
            c@.lines == Seq::<usize>::empty(),
            c@.constants == Seq::<SpecValue>::empty(),
    {
        Chunk { code: Vec::new(), constants: ValueArray::new(), lines: Vec::new() }
    }

    /// Appends a byte and the line it comes from.
    pub fn write(&mut self, byte: u8, line: usize)
        ensures
            final(self)@.code == old(self)@.code.push(byte),
            final(self)@.lines == old(self)@.lines.push(line),
            final(self)@.constants == old(self)@.constants,
    {
        self.code.push(byte);
        self.lines.push(line);
    }

    /// Appends an opcode and the line it comes from.
    pub fn write_opcode(&mut self, op: OpCode, line: usize)
        ensures
            final(self)@.code == old(self)@.code.push(opcode_byte(op)),
            final(self)@.lines == old(self)@.lines.push(line),
            final(self)@.constants == old(self)@.constants,
    {
        self.code.push(op.into());
        self.lines.push(line);
    }

    /// The byte at `ip`.
    pub fn read(&self, ip: usize) -> (b: u8)
        requires
            ip < self@.code.len(),
        ensures
            b == self@.code[ip as int],
    {
        self.code[ip]
    }

    /// The number of bytes of code.
    pub fn code_len(&self) -> (n: usize)
        ensures
            n == self@.code.len(),
    {
        self.code.len()
    }

    /// The number of entries of the line table.
    pub fn line_count(&self) -> (n: usize)
        ensures
            n == self@.lines.len(),
    {
        self.lines.len()
    }

    /// The number of constants.
    pub fn constants_len(&self) -> (n: usize)
        ensures
            n == self@.constants.len(),
    {
        self.constants.len()
    }

    /// The source line of the byte at `ip`.
    pub fn get_line(&self, ip: usize) -> (line: usize)
        requires
            ip < self@.lines.len(),
        ensures
            line == self@.lines[ip as int],
    {
        self.lines[ip]
    }

    /// Drops the code and the constants; the line table is kept.
    pub fn free(&mut self)
        ensures
            final(self)@.code == Seq::<u8>::empty(),
            final(self)@.constants == Seq::<SpecValue>::empty(),
            final(self)@.lines == old(self)@.lines,
    {
        self.code = Vec::new();
        self.constants.free();
    }

    /// Adds `value` to the constant pool and returns its index, truncated to
    /// a byte (from the 257th constant on, the index wraps around).
    pub fn add_constant(&mut self, value: Value) -> (index: u8)
        ensures
            final(self)@.code == old(self)@.code,
            final(self)@.lines == old(self)@.lines,
            final(self)@.constants == old(self)@.constants.push(value@),
            index == old(self)@.constants.len() % 256,
    {
        self.constants.write(value)
    }

    /// A copy of the constant at `index`.
    pub fn get_constant(&self, index: usize) -> (v: Value)
        requires
            index < self@.constants.len(),
        ensures
            v@ == self@.constants[index as int],
    {
        self.constants.get_value(index)
    }

    /// Decodes the instruction at `offset`, as the disassembler shows it.
    pub fn disassemble_instruction(&self, offset: usize) -> (d: Disassembled)
        requires
            offset < self@.code.len(),
            offset < self@.lines.len(),
            self@.code[offset as int] < 14,
            self@.code[offset as int] == 0 ==> offset + 1 < self@.code.len() && (self@.code[offset + 1] as int) < self@.constants.len(),
        ensures
            d.offset == offset,
            describes(self@, d),
    {
        let code_len = self.code.len();
        assert(offset + 1 <= code_len);
        let line = if offset > 0 && self.lines[offset] == self.lines[offset - 1] {
            None
        } else {
            Some(self.lines[offset])
        };
        let op = OpCode::from_byte(self.code[offset]);
        match op {
            OpCode::Constant => {
                let constant = self.code[offset + 1];
                let value = self.constants.get_value(constant as usize);
                Disassembled { offset, line, op, operand: Some((constant, value)), next: offset + 2 }
            },
            _ => Disassembled { offset, line, op, operand: None, next: offset + 1 },
        }
    }

    /// Whether the whole chunk decodes into instructions, as `disassemble`
    /// asks.
    pub fn decodes(&self) -> (r: bool)
        ensures
            r == decodes_from(self@, 0),
    {
        let n = self.code.len();
        let mut offset: usize = 0;
        while offset < n
            invariant
                n == self@.code.len(),
                offset <= n,
                decodes_from(self@, 0) == decodes_from(self@, offset as int),
            decreases n - offset,
        {
            let b = self.code[offset];
            if b >= OPCODE_COUNT || offset >= self.lines.len() {
                return false;
            }
            if b == 0 {
                if offset + 1 >= n || self.code[offset + 1] as usize >= self.constants.len() {
                    return false;
                }
                offset = offset + 2;
            } else {
                offset = offset + 1;
            }
        }
        true
    }

    /// Decodes every instruction of the chunk, in order.
    pub fn disassemble(&self) -> (ds: Vec<Disassembled>)
        requires
            decodes_from(self@, 0),
        ensures
            ds@.len() > 0 ==> ds@[0].offset == 0,
            forall|i: int| 0 <= i < ds@.len() ==> (#[trigger] ds@[i]).offset < self@.code.len(),
            forall|i: int| 0 <= i < ds@.len() ==> describes(self@, #[trigger] ds@[i]),
            forall|i: int| 0 < i < ds@.len() ==> (#[trigger] ds@[i]).offset == ds@[i - 1].next,
            ds@.len() > 0 ==> ds@.last().next == self@.code.len(),
            self@.code.len() == 0 <==> ds@.len() == 0,
    {
        let mut ds: Vec<Disassembled> = Vec::new();
        let mut offset: usize = 0;
        while offset < self.code.len()
            invariant
                decodes_from(self@, offset as int),
                offset <= self@.code.len(),
                ds@.len() > 0 ==> ds@[0].offset == 0,
                ds@.len() == 0 <==> offset == 0,
                forall|i: int| 0 <= i < ds@.len() ==> (#[trigger] ds@[i]).offset < self@.code.len(),
                forall|i: int| 0 <= i < ds@.len() ==> describes(self@, #[trigger] ds@[i]),
                forall|i: int| 0 < i < ds@.len() ==> (#[trigger] ds@[i]).offset == ds@[i - 1].next,
                ds@.len() > 0 ==> ds@.last().next == offset,
            decreases self@.code.len() - offset,
        {
            let d = self.disassemble_instruction(offset);
            offset = d.next;
            ds.push(d);
        }
        ds
    }
}

/// A constant added to the pool is found again at the index it was given.
pub proof fn law_constant_read_back(before: ChunkView, after: ChunkView, value: SpecValue, index: u8)
    requires
        after.constants == before.constants.push(value),
        index as int == before.constants.len(),
    ensures
        (index as int) < after.constants.len(),
        after.constants[index as int] == value,
        forall|i: int| 0 <= i < before.constants.len() ==> after.constants[i] == before.constants[i],
{
}

/// A byte written to a chunk is read back at the end of the code, with its
/// line, and the code before it is unchanged.
pub proof fn law_code_read_back(before: ChunkView, after: ChunkView, byte: u8, line: usize)
    requires
        after.code == before.code.push(byte),
        after.lines == before.lines.push(line),
    ensures
        after.code[before.code.len() as int] == byte,
        after.lines[before.lines.len() as int] == line,
        forall|i: int| 0 <= i < before.code.len() ==> after.code[i] == before.code[i],
{
}

} // verus!
