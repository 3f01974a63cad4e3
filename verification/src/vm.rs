use vstd::prelude::*;

use crate::chunk::{describes, instruction_len, opcode_of, Chunk, ChunkView, Disassembled, OpCode};
use crate::token::text;
use crate::value::{falsy, SpecValue, Value};

verus! {

/// Why interpreting a program failed.
#[derive(Debug, Clone, Copy, PartialEq, Eq, Structural)]
pub enum InterpretError {
    CompileError,
    RuntimeError,
}

/// The outcome of interpreting a program.
pub type InterpretResult<T = ()> = Result<T, InterpretError>;

/// An arithmetic instruction on two numbers.
#[derive(Debug, Clone, Copy, PartialEq, Eq, Structural)]
pub enum ArithOp {
    Add,
    Subtract,
    Multiply,
    Divide,
}

/// A comparison of two numbers.
#[derive(Debug, Clone, Copy, PartialEq, Eq, Structural)]
pub enum CompareOp {
    Equal,
    Greater,
    Less,
}

/// What one step of the machine leaves to its runner.
///
/// Numbers are doubles, and the library does no floating point: where an
/// instruction computes on numbers, the step pops the operands and hands
/// their texts to the runner, which pushes the result with `VM::push`.
#[derive(Debug)]
pub enum Step {
    /// The instruction was carried out; run the next one.
    Continue,
    /// `Return`: the program's value, popped from the stack.
    Return(Value),
    /// Push the number that `op` gives on the two numbers `a` and `b`.
    Arithmetic { op: ArithOp, a: Vec<u8>, b: Vec<u8> },
    /// Push the negation of the number `a`.
    Negate(Vec<u8>),
    /// Push the boolean that `op` gives on the two numbers `a` and `b`.
    Compare { relation: CompareOp, a: Vec<u8>, b: Vec<u8> },
    /// The program failed at `line`; the stack was emptied.
    RuntimeError { message: Vec<u8>, line: usize },
}

/// The model of a step.
pub enum SpecStep {
    Continue,
    Return(SpecValue),
    Arithmetic(ArithOp, Seq<u8>, Seq<u8>),
    Negate(Seq<u8>),
    Compare(CompareOp, Seq<u8>, Seq<u8>),
    RuntimeError(Seq<u8>, usize),
}

impl View for Step {
    type V = SpecStep;

    open spec fn view(&self) -> SpecStep {
        match self {
            Step::Continue => SpecStep::Continue,
            Step::Return(v) => SpecStep::Return(v@),
            Step::Arithmetic { op, a, b } => SpecStep::Arithmetic(*op, a@, b@),
            Step::Negate(a) => SpecStep::Negate(a@),
            Step::Compare { relation, a, b } => SpecStep::Compare(*relation, a@, b@),
            Step::RuntimeError { message, line } => SpecStep::RuntimeError(message@, *line),
        }
    }
}

/// The model of the machine: the instruction pointer and the value stack,
/// bottom first.
#[verifier::ext_equal]
pub struct VmState {
    pub ip: int,
    pub stack: Seq<SpecValue>,
}

/// How many values an instruction takes from the stack.
pub open spec fn arity(op: OpCode) -> int {
    match op {
        OpCode::Constant | OpCode::Nil | OpCode::True | OpCode::False => 0,
        OpCode::Return | OpCode::Negate | OpCode::Not => 1,
        _ => 2,
    }
}

/// Whether the machine can carry out the instruction at `ip`: it is a whole
/// instruction with a line, its constant operand names a constant, and the
/// stack holds its operands.
pub open spec fn can_step(c: ChunkView, st: VmState) -> bool {
    &&& 0 <= st.ip < c.code.len()
    &&& st.ip < c.lines.len()
    &&& c.code[st.ip] < 14
    &&& c.code[st.ip] == 0 ==> st.ip + 1 < c.code.len() && (c.code[st.ip + 1] as int)
        < c.constants.len()
    &&& st.stack.len() >= arity(opcode_of(c.code[st.ip]))
}

/// Lox equality of two values that are not both numbers: same kind and same
/// contents. (Two numbers are compared as doubles, by the runner; this
/// function does not speak of them.)
pub open spec fn values_equal(a: SpecValue, b: SpecValue) -> bool {
    match (a, b) {
        (SpecValue::Nil, SpecValue::Nil) => true,
        (SpecValue::Boolean(x), SpecValue::Boolean(y)) => x == y,
        (SpecValue::Object(x), SpecValue::Object(y)) => x == y,
        _ => false,
    }
}

/// Lox equality of values that are not numbers is reflexive and symmetric,
/// and values of different kinds are never equal.
pub proof fn law_equality(a: SpecValue, b: SpecValue)
    ensures
        !(a is Number) ==> values_equal(a, a),
        values_equal(a, b) == values_equal(b, a),
        values_equal(a, b) ==> a == b,
{
}

/// The message of a type error in an operand.
pub open spec fn operand_message() -> Seq<u8> {
    text("Operand must be numbers.")
}

/// The stack without its top `n` values.
pub open spec fn drop_top(s: Seq<SpecValue>, n: int) -> Seq<SpecValue> {
    s.take(s.len() - n)
}

/// The value `distance` places below the top of the stack.
pub open spec fn peek_at(s: Seq<SpecValue>, distance: int) -> SpecValue {
    s[s.len() - 1 - distance]
}

/// The text of a number value.
pub open spec fn number_text(v: SpecValue) -> Seq<u8> {
    match v {
        SpecValue::Number(t) => t,
        _ => Seq::empty(),
    }
}

/// A binary instruction on two numbers: a type error unless both operands
/// are numbers; otherwise both are popped and the work is handed out.
pub open spec fn binary_step(c: ChunkView, st: VmState, work: SpecStep) -> (VmState, SpecStep) {
    let next = st.ip + 1;
    if peek_at(st.stack, 0) is Number && peek_at(st.stack, 1) is Number {
        (VmState { ip: next, stack: drop_top(st.stack, 2) }, work)
    } else {
        (
            VmState { ip: next, stack: Seq::empty() },
            SpecStep::RuntimeError(operand_message(), c.lines[st.ip]),
        )
    }
}

/// What the instruction at `ip` does: the machine's next state, and what is
/// left to the runner.
pub open spec fn step_model(c: ChunkView, st: VmState) -> (VmState, SpecStep) {
    let op = opcode_of(c.code[st.ip]);
    let next = st.ip + 1;
    let s = st.stack;
    let a = number_text(peek_at(s, 1));
    let b = number_text(peek_at(s, 0));
    match op {
        OpCode::Constant => (
            VmState { ip: st.ip + 2, stack: s.push(c.constants[c.code[st.ip + 1] as int]) },
            SpecStep::Continue,
        ),
        OpCode::Return => (VmState { ip: next, stack: drop_top(s, 1) }, SpecStep::Return(s.last())),
        OpCode::Negate => if peek_at(s, 0) is Number {
            (VmState { ip: next, stack: drop_top(s, 1) }, SpecStep::Negate(b))
        } else {
            (
                VmState { ip: next, stack: Seq::empty() },
                SpecStep::RuntimeError(operand_message(), c.lines[st.ip]),
            )
        },
        OpCode::Add => binary_step(c, st, SpecStep::Arithmetic(ArithOp::Add, a, b)),
        OpCode::Subtract => binary_step(c, st, SpecStep::Arithmetic(ArithOp::Subtract, a, b)),
        OpCode::Multiple => binary_step(c, st, SpecStep::Arithmetic(ArithOp::Multiply, a, b)),
        OpCode::Divide => binary_step(c, st, SpecStep::Arithmetic(ArithOp::Divide, a, b)),
        OpCode::Greater => binary_step(c, st, SpecStep::Compare(CompareOp::Greater, a, b)),
        OpCode::Less => binary_step(c, st, SpecStep::Compare(CompareOp::Less, a, b)),
        OpCode::Nil => (VmState { ip: next, stack: s.push(SpecValue::Nil) }, SpecStep::Continue),
        OpCode::True => (
            VmState { ip: next, stack: s.push(SpecValue::Boolean(true)) },
            SpecStep::Continue,
        ),
        OpCode::False => (
            VmState { ip: next, stack: s.push(SpecValue::Boolean(false)) },
            SpecStep::Continue,
        ),
        OpCode::Not => (
            VmState {
                ip: next,
                stack: drop_top(s, 1).push(SpecValue::Boolean(falsy(s.last()))),
            },
            SpecStep::Continue,
        ),
        OpCode::Equal => if peek_at(s, 0) is Number && peek_at(s, 1) is Number {
            (VmState { ip: next, stack: drop_top(s, 2) }, SpecStep::Compare(CompareOp::Equal, a, b))
        } else {
            (
                VmState {
                    ip: next,
                    stack: drop_top(s, 2).push(
                        SpecValue::Boolean(values_equal(peek_at(s, 1), peek_at(s, 0))),
                    ),
                },
                SpecStep::Continue,
            )
        },
    }
}

/// A stack-based virtual machine that runs a chunk one instruction at a time.
#[derive(Debug)]
pub struct VM {
    ip: usize,
    stack: Vec<Value>,
}

impl View for VM {
    type V = VmState;

    closed spec fn view(&self) -> VmState {
        VmState { ip: self.ip as int, stack: self.stack@.map_values(|v: Value| v@) }
    }
}

impl VM {
    /// A machine at the first instruction, with an empty stack.
    pub fn new() -> (vm: VM)
        ensures
            vm@.ip == 0,
            vm@.stack == Seq::<SpecValue>::empty(),
    {
        let vm = VM { ip: 0, stack: Vec::new() };
        assert(vm@.stack =~= Seq::<SpecValue>::empty());
        vm
    }

    /// The instruction pointer.
    pub fn ip(&self) -> (ip: usize)
        ensures
            ip == self@.ip,
    {
        self.ip
    }

    /// The values on the stack, bottom first.
    pub fn stack(&self) -> (s: &[Value])
        ensures
            s@.map_values(|v: Value| v@) == self@.stack,
    {
        self.stack.as_slice()
    }

    /// Moves back to the first instruction; the stack stays.
    pub fn rewind(&mut self)
        ensures
            final(self)@.ip == 0,
            final(self)@.stack == old(self)@.stack,
    {
        self.ip = 0;
    }

    /// Empties the stack.
    pub fn free(&mut self)
        ensures
            final(self)@.ip == old(self)@.ip,
            final(self)@.stack == Seq::<SpecValue>::empty(),
    {
        self.reset_stack();
    }

    /// Pushes a value, such as the result of the work a step handed out.
    pub fn push(&mut self, value: Value)
        ensures
            final(self)@.ip == old(self)@.ip,
            final(self)@.stack == old(self)@.stack.push(value@),
    {
        let ghost v = value@;
        self.stack.push(value);
        assert(self@.stack =~= old(self)@.stack.push(v));
    }

    /// Whether the instruction at the instruction pointer can be carried out.
    pub fn can_step(&self, chunk: &Chunk) -> (r: bool)
        ensures
            r == can_step(chunk@, self@),
    {
        let ip = self.ip;
        if ip >= chunk.code_len() || ip >= chunk.line_count() {
            return false;
        }
        let b = chunk.read(ip);
        if b >= crate::chunk::OPCODE_COUNT {
            return false;
        }
        if b == 0 {
            if ip + 1 >= chunk.code_len() {
                return false;
            }
            if chunk.read(ip + 1) as usize >= chunk.constants_len() {
                return false;
            }
        }
        let needed: usize = match OpCode::from_byte(b) {
            OpCode::Constant | OpCode::Nil | OpCode::True | OpCode::False => 0,
            OpCode::Return | OpCode::Negate | OpCode::Not => 1,
            _ => 2,
        };
        self.stack.len() >= needed
    }

    /// Carries out the instruction at the instruction pointer.
    pub fn step(&mut self, chunk: &Chunk) -> (s: Step)
        requires
            can_step(chunk@, old(self)@),
        ensures
            (final(self)@, s@) == step_model(chunk@, old(self)@),
    {
        let instruction = self.read_byte(chunk);
        match instruction {
            OpCode::Return => {
                let v = self.pop();
                Step::Return(v)
            },
            OpCode::Constant => {
                let constant = self.read_constant(chunk);
                self.push(constant);
                Step::Continue
            },
            OpCode::Negate => {
                if self.peek(0).is_number() {
                    let value = self.pop();
                    match value {
                        Value::Number(t) => Step::Negate(t),
                        _ => Step::Negate(Vec::new()),
                    }
                } else {
                    self.runtime_error(chunk, "Operand must be numbers.")
                }
            },
            OpCode::Add => self.binary_op(chunk, BinaryWork::Arith(ArithOp::Add)),
            OpCode::Subtract => self.binary_op(chunk, BinaryWork::Arith(ArithOp::Subtract)),
            OpCode::Multiple => self.binary_op(chunk, BinaryWork::Arith(ArithOp::Multiply)),
            OpCode::Divide => self.binary_op(chunk, BinaryWork::Arith(ArithOp::Divide)),
            OpCode::Nil => {
                self.push(Value::Nil);
                Step::Continue
            },
            OpCode::True => {
                self.push(Value::Boolean(true));
                Step::Continue
            },
            OpCode::False => {
                self.push(Value::Boolean(false));
                Step::Continue
            },
            OpCode::Not => {
                let value = self.pop();
                self.push(Value::Boolean(value.is_falsy()));
                Step::Continue
            },
            OpCode::Equal => {
                let b = self.pop();
                let a = self.pop();
                match (a, b) {
                    (Value::Number(x), Value::Number(y)) => Step::Compare {
                        relation: CompareOp::Equal,
                        a: x,
                        b: y,
                    },
                    (a, b) => {
                        let eq = equal_values(&a, &b);
                        self.push(Value::Boolean(eq));
                        Step::Continue
                    },
                }
            },
            OpCode::Greater => self.binary_op(chunk, BinaryWork::Compare(CompareOp::Greater)),
            OpCode::Less => self.binary_op(chunk, BinaryWork::Compare(CompareOp::Less)),
        }
    }

    fn pop(&mut self) -> (v: Value)
        requires
            old(self)@.stack.len() > 0,
        ensures
            v@ == old(self)@.stack.last(),
            final(self)@.stack == drop_top(old(self)@.stack, 1),
            final(self)@.ip == old(self)@.ip,
    {
        let v = self.stack.pop().unwrap();
        assert(self@.stack =~= drop_top(old(self)@.stack, 1));
        v
    }

    fn peek(&self, distance: usize) -> (v: &Value)
        requires
            distance < self@.stack.len(),
        ensures
            v@ == peek_at(self@.stack, distance as int),
    {
        &self.stack[self.stack.len() - distance - 1]
    }

    fn reset_stack(&mut self)
        ensures
            final(self)@.stack == Seq::<SpecValue>::empty(),
            final(self)@.ip == old(self)@.ip,
    {
        self.stack.clear();
        assert(self@.stack =~= Seq::<SpecValue>::empty());
    }

    fn read_byte(&mut self, chunk: &Chunk) -> (op: OpCode)
        requires
            old(self)@.ip < chunk@.code.len(),
            chunk@.code[old(self)@.ip] < 14,
        ensures
            op == opcode_of(chunk@.code[old(self)@.ip]),
            final(self)@.ip == old(self)@.ip + 1,
            final(self)@.stack == old(self)@.stack,
    {
        let n = chunk.code_len();
        assert(self.ip < n);
        let val = OpCode::from_byte(chunk.read(self.ip));
        self.ip += 1;
        val
    }

    fn read_constant(&mut self, chunk: &Chunk) -> (v: Value)
        requires
            old(self)@.ip < chunk@.code.len(),
            (chunk@.code[old(self)@.ip] as int) < chunk@.constants.len(),
        ensures
            v@ == chunk@.constants[chunk@.code[old(self)@.ip] as int],
            final(self)@.ip == old(self)@.ip + 1,
            final(self)@.stack == old(self)@.stack,
    {
        let n = chunk.code_len();
        assert(self.ip < n);
        let index = chunk.read(self.ip) as usize;
        self.ip += 1;
        chunk.get_constant(index)
    }

    fn binary_op(&mut self, chunk: &Chunk, work: BinaryWork) -> (s: Step)
        requires
            old(self)@.stack.len() >= 2,
            1 <= old(self)@.ip <= chunk@.lines.len(),
        ensures
            (final(self)@, s@) == ({
                let st = old(self)@;
                let a = number_text(peek_at(st.stack, 1));
                let b = number_text(peek_at(st.stack, 0));
                binary_step(
                    chunk@,
                    VmState { ip: st.ip - 1, stack: st.stack },
                    work_step(work, a, b),
                )
            }),
    {
        if !self.peek(0).is_number() || !self.peek(1).is_number() {
            return self.runtime_error(chunk, "Operand must be numbers.");
        }
        let b = self.pop();
        let a = self.pop();
        match (a, b) {
            (Value::Number(x), Value::Number(y)) => match work {
                BinaryWork::Arith(op) => Step::Arithmetic { op, a: x, b: y },
                BinaryWork::Compare(relation) => Step::Compare { relation, a: x, b: y },
            },
            _ => Step::Continue,
        }
    }

    fn runtime_error(&mut self, chunk: &Chunk, msg: &str) -> (s: Step)
        requires
            1 <= old(self)@.ip <= chunk@.lines.len(),
        ensures
            s@ == SpecStep::RuntimeError(text(msg), chunk@.lines[old(self)@.ip - 1]),
            final(self)@.stack == Seq::<SpecValue>::empty(),
            final(self)@.ip == old(self)@.ip,
    {
        let line = chunk.get_line(self.ip - 1);
        self.reset_stack();
        Step::RuntimeError { message: vstd::slice::slice_to_vec(msg.as_bytes()), line }
    }
}

/// The work that a binary instruction hands out.
#[derive(Debug, Clone, Copy)]
pub enum BinaryWork {
    Arith(ArithOp),
    Compare(CompareOp),
}

/// The step that hands out `work` on the numbers `a` and `b`.
pub open spec fn work_step(work: BinaryWork, a: Seq<u8>, b: Seq<u8>) -> SpecStep {
    match work {
        BinaryWork::Arith(op) => SpecStep::Arithmetic(op, a, b),
        BinaryWork::Compare(op) => SpecStep::Compare(op, a, b),
    }
}

/// Lox equality of two values that are not both numbers (two numbers are
/// compared as doubles, by the runner).
pub fn equal_values(a: &Value, b: &Value) -> (r: bool)
    requires
        !(a@ is Number && b@ is Number),
    ensures
        r == values_equal(a@, b@),
{
    match (a, b) {
        (Value::Nil, Value::Nil) => true,
        (Value::Boolean(x), Value::Boolean(y)) => *x == *y,
        (Value::Object(x), Value::Object(y)) => x.0 == y.0,
        _ => false,
    }
}

/// How an instruction changes the height of the stack, counting the value
/// that the runner pushes for work the step hands out.
pub open spec fn stack_change(op: OpCode) -> int {
    match op {
        OpCode::Constant | OpCode::Nil | OpCode::True | OpCode::False => 1,
        OpCode::Negate | OpCode::Not => 0,
        _ => -1,
    }
}

/// The instructions from `from` up to `to` decode whole, none of them is
/// `Return`, and run from `d` values on the stack to `d2` without ever
/// lacking an operand.
pub open spec fn segment_runs(c: ChunkView, from: int, to: int, d: int, d2: int) -> bool
    decreases to - from,
{
    if from >= to {
        from == to && d == d2
    } else if from < 0 || to > c.code.len() {
        false
    } else {
        let b = c.code[from];
        &&& b < 14
        &&& b != 1
        &&& from < c.lines.len()
        &&& b == 0 ==> from + 1 < to && (c.code[from + 1] as int) < c.constants.len()
        &&& d >= arity(opcode_of(b))
        &&& segment_runs(c, from + instruction_len(b), to, d + stack_change(opcode_of(b)), d2)
    }
}

/// The code from `offset` on, run from `d` values on the stack, reaches a
/// `Return` with a value to return and never lacks an operand on the way.
pub open spec fn runs_to_return(c: ChunkView, offset: int, d: int) -> bool
    decreases c.code.len() - offset,
{
    if offset < 0 || offset >= c.code.len() {
        false
    } else {
        let b = c.code[offset];
        &&& b < 14
        &&& offset < c.lines.len()
        &&& b == 0 ==> offset + 1 < c.code.len() && (c.code[offset + 1] as int) < c.constants.len()
        &&& d >= arity(opcode_of(b))
        &&& (b != 1 ==> runs_to_return(
            c,
            offset + instruction_len(b),
            d + stack_change(opcode_of(b)),
        ))
    }
}

/// Two segments that meet run as one.
pub proof fn lemma_segment_concat(c: ChunkView, a: int, b: int, e: int, d1: int, d2: int, d3: int)
    requires
        segment_runs(c, a, b, d1, d2),
        segment_runs(c, b, e, d2, d3),
    ensures
        segment_runs(c, a, e, d1, d3),
    decreases b - a,
{
    if a < b {
        let x = c.code[a];
        lemma_segment_concat(
            c,
            a + instruction_len(x),
            b,
            e,
            d1 + stack_change(opcode_of(x)),
            d2,
            d3,
        );
    }
}

/// A segment runs just as well with more values beneath it.
pub proof fn lemma_segment_shift(c: ChunkView, a: int, b: int, d1: int, d2: int, k: int)
    requires
        segment_runs(c, a, b, d1, d2),
        k >= 0,
    ensures
        segment_runs(c, a, b, d1 + k, d2 + k),
    decreases b - a,
{
    if a < b {
        let x = c.code[a];
        lemma_segment_shift(c, a + instruction_len(x), b, d1 + stack_change(opcode_of(x)), d2, k);
    }
}

/// A segment followed by code that runs to a `Return` runs to that `Return`.
pub proof fn lemma_segment_then_return(c: ChunkView, a: int, b: int, d1: int, d2: int)
    requires
        segment_runs(c, a, b, d1, d2),
        runs_to_return(c, b, d2),
    ensures
        runs_to_return(c, a, d1),
    decreases b - a,
{
    if a < b {
        let x = c.code[a];
        lemma_segment_then_return(c, a + instruction_len(x), b, d1 + stack_change(opcode_of(x)), d2);
    }
}

/// The code of `c1` is a prefix of the code of `c2`, and so are the lines
/// and the constants.
pub open spec fn chunk_extends(c1: ChunkView, c2: ChunkView) -> bool {
    &&& c1.code.len() <= c2.code.len()
    &&& c1.lines.len() <= c2.lines.len()
    &&& c1.constants.len() <= c2.constants.len()
    &&& forall|i: int| 0 <= i < c1.code.len() ==> c2.code[i] == c1.code[i]
    &&& forall|i: int| 0 <= i < c1.lines.len() ==> c2.lines[i] == c1.lines[i]
    &&& forall|i: int| 0 <= i < c1.constants.len() ==> c2.constants[i] == c1.constants[i]
}

/// A segment keeps running when the chunk grows past it.
pub proof fn lemma_segment_extend(c1: ChunkView, c2: ChunkView, a: int, b: int, d1: int, d2: int)
    requires
        segment_runs(c1, a, b, d1, d2),
        chunk_extends(c1, c2),
    ensures
        segment_runs(c2, a, b, d1, d2),
    decreases b - a,
{
    if a < b {
        let x = c1.code[a];
        lemma_segment_extend(c1, c2, a + instruction_len(x), b, d1 + stack_change(opcode_of(x)), d2);
    }
}

/// Code that runs to a `Return` can always take its next step; after the
/// step, and once the runner has pushed the result of any work handed out,
/// the rest of the code still runs to a `Return`. A `Return` or a runtime
/// error ends the run.
pub proof fn law_step_keeps_running(c: ChunkView, st: VmState)
    requires
        runs_to_return(c, st.ip, st.stack.len() as int),
    ensures
        can_step(c, st),
        ({
            let (st2, s) = step_model(c, st);
            match s {
                SpecStep::Continue => runs_to_return(c, st2.ip, st2.stack.len() as int),
                SpecStep::Arithmetic(..) | SpecStep::Negate(..) | SpecStep::Compare(..) => runs_to_return(
                    c,
                    st2.ip,
                    st2.stack.len() + 1int,
                ),
                _ => true,
            }
        }),
{
}

/// An opcode of number arithmetic: `Constant`, `Return`, `Negate`, `Add`,
/// `Subtract`, `Multiple` or `Divide`.
pub open spec fn arithmetic_opcode(b: u8) -> bool {
    b <= 6
}

/// From `offset` on, the instructions are all of number arithmetic.
pub open spec fn arithmetic_from(c: ChunkView, offset: int) -> bool
    decreases c.code.len() - offset,
{
    if offset < 0 || offset >= c.code.len() {
        true
    } else {
        &&& arithmetic_opcode(c.code[offset])
        &&& (offset + instruction_len(c.code[offset]) >= c.code.len() || arithmetic_from(
            c,
            offset + instruction_len(c.code[offset]),
        ))
    }
}

/// Every value of a stack is a number.
pub open spec fn all_numbers(s: Seq<SpecValue>) -> bool {
    forall|i: int| 0 <= i < s.len() ==> (#[trigger] s[i]) is Number
}

/// Every constant of a chunk is a number.
pub open spec fn numeric_pool(c: ChunkView) -> bool {
    all_numbers(c.constants)
}

/// Arithmetic on numbers never fails: where the code from the instruction
/// pointer on is number arithmetic, the pool and the stack hold only numbers,
/// and the code runs to its `Return`, the step is no runtime error and no
/// comparison; after it, and after the runner has pushed the number it was
/// asked for, the stack still holds only numbers, and the code from the new
/// instruction pointer is still number arithmetic. `Return` gives a number.
pub proof fn law_arithmetic_stays_numeric(c: ChunkView, st: VmState)
    requires
        runs_to_return(c, st.ip, st.stack.len() as int),
        arithmetic_from(c, st.ip),
        all_numbers(st.stack),
        numeric_pool(c),
    ensures
        ({
            let (st2, s) = step_model(c, st);
            &&& !(s is RuntimeError)
            &&& !(s is Compare)
            &&& s matches SpecStep::Return(v) ==> v is Number
            &&& all_numbers(st2.stack)
            &&& arithmetic_from(c, st2.ip)
            &&& forall|t: Seq<u8>| all_numbers(#[trigger] st2.stack.push(SpecValue::Number(t)))
        }),
{
    let (st2, s) = step_model(c, st);
    let b = c.code[st.ip];
    assert(st.stack.len() >= 1 ==> peek_at(st.stack, 0) is Number);
    assert(st.stack.len() >= 2 ==> peek_at(st.stack, 1) is Number);
    if b == 0 {
        assert(c.constants[c.code[st.ip + 1] as int] is Number);
    }
    assert forall|t: Seq<u8>| all_numbers(#[trigger] st2.stack.push(SpecValue::Number(t))) by {
        assert forall|i: int| 0 <= i < st2.stack.push(SpecValue::Number(t)).len() implies (#[trigger] st2.stack.push(SpecValue::Number(t))[i]) is Number by {
            if i < st2.stack.len() {
                assert(st2.stack[i] is Number);
            }
        }
    }
}

/// The machine's state once the runner has done the work a step handed out:
/// it pushes the number `compute` gives for arithmetic, the number `negate`
/// gives for a negation, and the boolean `holds` gives for a comparison.
pub open spec fn answered(
    st2: VmState,
    s: SpecStep,
    holds: spec_fn(CompareOp, Seq<u8>, Seq<u8>) -> bool,
    compute: spec_fn(ArithOp, Seq<u8>, Seq<u8>) -> Seq<u8>,
    negate: spec_fn(Seq<u8>) -> Seq<u8>,
) -> VmState {
    match s {
        SpecStep::Arithmetic(op, a, b) => VmState {
            stack: st2.stack.push(SpecValue::Number(compute(op, a, b))),
            ..st2
        },
        SpecStep::Negate(a) => VmState { stack: st2.stack.push(SpecValue::Number(negate(a))), ..st2 },
        SpecStep::Compare(op, a, b) => VmState {
            stack: st2.stack.push(SpecValue::Boolean(holds(op, a, b))),
            ..st2
        },
        _ => st2,
    }
}

/// One step of the machine together with the runner's answer to it.
pub open spec fn run_step(
    c: ChunkView,
    st: VmState,
    holds: spec_fn(CompareOp, Seq<u8>, Seq<u8>) -> bool,
    compute: spec_fn(ArithOp, Seq<u8>, Seq<u8>) -> Seq<u8>,
    negate: spec_fn(Seq<u8>) -> Seq<u8>,
) -> VmState {
    let (st2, s) = step_model(c, st);
    answered(st2, s, holds, compute, negate)
}

/// `n` steps of the machine, each with the runner's answer.
pub open spec fn run_steps(
    c: ChunkView,
    st: VmState,
    holds: spec_fn(CompareOp, Seq<u8>, Seq<u8>) -> bool,
    compute: spec_fn(ArithOp, Seq<u8>, Seq<u8>) -> Seq<u8>,
    negate: spec_fn(Seq<u8>) -> Seq<u8>,
    n: nat,
) -> VmState
    decreases n,
{
    if n == 0 {
        st
    } else {
        run_steps(c, run_step(c, st, holds, compute, negate), holds, compute, negate, (n - 1) as nat)
    }
}

/// What a binary instruction means on the numbers `a` (below) and `b` (on
/// top): arithmetic gives the runner's number, a comparison the runner's
/// verdict on exactly that relation of the two numbers, whatever their texts.
pub open spec fn number_instruction_value(
    op: OpCode,
    a: Seq<u8>,
    b: Seq<u8>,
    holds: spec_fn(CompareOp, Seq<u8>, Seq<u8>) -> bool,
    compute: spec_fn(ArithOp, Seq<u8>, Seq<u8>) -> Seq<u8>,
) -> SpecValue {
    match op {
        OpCode::Add => SpecValue::Number(compute(ArithOp::Add, a, b)),
        OpCode::Subtract => SpecValue::Number(compute(ArithOp::Subtract, a, b)),
        OpCode::Multiple => SpecValue::Number(compute(ArithOp::Multiply, a, b)),
        OpCode::Divide => SpecValue::Number(compute(ArithOp::Divide, a, b)),
        OpCode::Greater => SpecValue::Boolean(holds(CompareOp::Greater, a, b)),
        OpCode::Less => SpecValue::Boolean(holds(CompareOp::Less, a, b)),
        _ => SpecValue::Boolean(holds(CompareOp::Equal, a, b)),
    }
}

/// A binary instruction on two numbers takes both from the stack and leaves
/// in their place the runner's answer on those two numbers: the machine
/// decides nothing about numbers itself, so two texts of the same double
/// (`"2.0"` and `"2"`) compare as the runner's doubles do.
pub proof fn law_number_instruction(
    c: ChunkView,
    st: VmState,
    a: Seq<u8>,
    b: Seq<u8>,
    holds: spec_fn(CompareOp, Seq<u8>, Seq<u8>) -> bool,
    compute: spec_fn(ArithOp, Seq<u8>, Seq<u8>) -> Seq<u8>,
    negate: spec_fn(Seq<u8>) -> Seq<u8>,
)
    requires
        0 <= st.ip < c.code.len(),
        3 <= c.code[st.ip] <= 6 || 11 <= c.code[st.ip] <= 13,
        st.stack.len() >= 2,
        peek_at(st.stack, 1) == SpecValue::Number(a),
        peek_at(st.stack, 0) == SpecValue::Number(b),
    ensures
        run_step(c, st, holds, compute, negate) == (VmState {
            ip: st.ip + 1,
            stack: drop_top(st.stack, 2).push(
                number_instruction_value(opcode_of(c.code[st.ip]), a, b, holds, compute),
            ),
        }),
{
}

/// A negation of a number leaves the runner's negated number in its place.
pub proof fn law_negate_instruction(
    c: ChunkView,
    st: VmState,
    a: Seq<u8>,
    holds: spec_fn(CompareOp, Seq<u8>, Seq<u8>) -> bool,
    compute: spec_fn(ArithOp, Seq<u8>, Seq<u8>) -> Seq<u8>,
    negate: spec_fn(Seq<u8>) -> Seq<u8>,
)
    requires
        0 <= st.ip < c.code.len(),
        c.code[st.ip] == 2,
        st.stack.len() >= 1,
        peek_at(st.stack, 0) == SpecValue::Number(a),
    ensures
        run_step(c, st, holds, compute, negate) == (VmState {
            ip: st.ip + 1,
            stack: drop_top(st.stack, 1).push(SpecValue::Number(negate(a))),
        }),
{
}

/// The disassembler shows an instruction as the machine runs it: the next
/// instruction it shows is where the machine goes on, and for a `Constant`
/// the value it shows is the value the machine pushes when it executes that
/// instruction.
pub proof fn law_disassembly_matches_machine(c: ChunkView, d: Disassembled, stack: Seq<SpecValue>)
    requires
        describes(c, d),
    ensures
        ({
            let (st2, s) = step_model(c, VmState { ip: d.offset as int, stack });
            &&& st2.ip == d.next
            &&& d.op == OpCode::Constant ==> {
                &&& s is Continue
                &&& d.operand matches Some((i, v)) && st2.stack == stack.push(v@)
            }
        }),
{
}

} // verus!
