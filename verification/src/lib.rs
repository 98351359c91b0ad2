//! An interpreter for a three-symbol ("whitespace-only") esoteric language.
//!
//! Source text is filtered to the ternary alphabet space / tab / line feed;
//! the symbol stream is decoded into instructions by a prefix code; the
//! instructions are assembled into a flat program with a resolved label
//! table; and a stack machine executes the program one instruction per
//! [`Interpreter::step`] call, under the caller's control.
//!
//! Points the language description leaves open are settled here as follows.
//! Literals carry no sign bit: their bits accumulate into a machine word
//! most-significant-first and wrap at the word's width. `MUL` computes the
//! product; addition, subtraction and multiplication wrap on overflow; a
//! zero divisor faults with [`Error::DIVISION_BY_ZERO`] for division and
//! remainder alike. `CALL` saves the position just after itself and `RET`
//! pops the most recent saved position, so every return consumes one
//! outstanding call. A conditional jump resolves its label only when the
//! jump is taken, and an instruction that faults leaves the machine state
//! exactly as it was.

pub mod error;
pub mod instruction;
pub mod symbol;
pub mod wsiter;

use std::collections::HashMap;
use vstd::prelude::*;
use vstd::string::StringExecFns;

pub use error::Error;
pub use instruction::Instruction;
pub use symbol::Symbol;
pub use wsiter::WsIter;

use instruction::{lemma_decode_progress, spec_decode_all, Label, Number};
use symbol::spec_symbols_of;

verus! {

broadcast use vstd::std_specs::hash::group_hash_axioms;

/// A view of a vector is never longer than `usize` can count.
proof fn lemma_vec_len_bound<T>(v: &Vec<T>)
    ensures
        v@.len() <= usize::MAX,
{
    assert(v.len() == v@.len());
}

/// The assembled form of a source text: the emitted instructions in order,
/// and the position that each defined label resolves to. Fixed once
/// assembly completes.
struct Program {
    instructions: Vec<Instruction>,
    labels: HashMap<Label, Label>,
}

/// The instructions a decoded sequence emits: everything but label
/// definitions, in order.
pub open spec fn spec_emit(instrs: Seq<Instruction>) -> Seq<Instruction>
    decreases instrs.len(),
{
    if instrs.len() == 0 {
        Seq::empty()
    } else {
        let rest = spec_emit(instrs.drop_last());
        match instrs.last() {
            Instruction::LABEL(_) => rest,
            _ => rest.push(instrs.last()),
        }
    }
}

/// The label table of a decoded sequence: each label definition binds its
/// id to the count of instructions emitted before it, and a later
/// definition of the same id overwrites an earlier one.
pub open spec fn spec_labels(instrs: Seq<Instruction>) -> Map<Label, Label>
    decreases instrs.len(),
{
    if instrs.len() == 0 {
        Map::empty()
    } else {
        let rest = spec_labels(instrs.drop_last());
        match instrs.last() {
            Instruction::LABEL(l) => rest.insert(l, spec_emit(instrs.drop_last()).len() as usize),
            _ => rest,
        }
    }
}

/// Appending one decoded instruction extends the emitted sequence, or the
/// label table, and touches nothing else.
proof fn lemma_assemble_push(s: Seq<Instruction>, x: Instruction)
    ensures
        spec_emit(s.push(x)) == (match x {
            Instruction::LABEL(_) => spec_emit(s),
            _ => spec_emit(s).push(x),
        }),
        spec_labels(s.push(x)) == (match x {
            Instruction::LABEL(l) => spec_labels(s).insert(l, spec_emit(s).len() as usize),
            _ => spec_labels(s),
        }),
{
    assert(s.push(x).drop_last() =~= s);
}

/// Current state of the program when a step raises no fault.
#[derive(Debug)]
pub enum Status {
    /// No action is needed from outside; the next instruction can be
    /// executed.
    Step,
    /// Print the string, a number already rendered in decimal.
    Print(String),
    /// A code point the caller is responsible for rendering.
    PrintChar(Number),
    /// Read an integer from input and hand it over with `write`.
    ReadInt,
    /// Read a character from input and hand its code over with `write`.
    ReadChar,
    /// The program finished cleanly; call `step` no further.
    Exit,
}

/// The mathematical shadow of [`Status`], with the rendered number as a
/// character sequence.
pub enum StatusView {
    /// Shadow of [`Status::Step`].
    Step,
    /// Shadow of [`Status::Print`].
    Print(Seq<char>),
    /// Shadow of [`Status::PrintChar`].
    PrintChar(Number),
    /// Shadow of [`Status::ReadInt`].
    ReadInt,
    /// Shadow of [`Status::ReadChar`].
    ReadChar,
    /// Shadow of [`Status::Exit`].
    Exit,
}

impl View for Status {
    type V = StatusView;

    open spec fn view(&self) -> StatusView {
        match self {
            Status::Step => StatusView::Step,
            Status::Print(t) => StatusView::Print(t@),
            Status::PrintChar(n) => StatusView::PrintChar(*n),
            Status::ReadInt => StatusView::ReadInt,
            Status::ReadChar => StatusView::ReadChar,
            Status::Exit => StatusView::Exit,
        }
    }
}

/// What a step reports, seen through the view of its status.
pub open spec fn spec_outcome(r: Result<Status, Error>) -> Result<StatusView, Error> {
    match r {
        Ok(s) => Ok(s@),
        Err(e) => Err(e),
    }
}

/// The whole state of an interpreter, as the contracts speak of it.
#[verifier::ext_equal]
pub struct VmView {
    /// The assembled instruction sequence, label definitions removed.
    pub instrs: Seq<Instruction>,
    /// The label table: label id to emitted-instruction position.
    pub labels: Map<Label, Label>,
    /// The program counter: an index into `instrs`.
    pub pc: usize,
    /// The operand stack; the last element is the top.
    pub stack: Seq<Number>,
    /// The call stack of saved return positions; the last element is the
    /// most recent.
    pub calls: Seq<Label>,
    /// The heap: a sparse mapping from address to value.
    pub heap: Map<Number, Number>,
}

/// The decimal character for one digit value.
pub open spec fn spec_digit_char(d: int) -> char {
    if d == 0 {
        '0'
    } else if d == 1 {
        '1'
    } else if d == 2 {
        '2'
    } else if d == 3 {
        '3'
    } else if d == 4 {
        '4'
    } else if d == 5 {
        '5'
    } else if d == 6 {
        '6'
    } else if d == 7 {
        '7'
    } else if d == 8 {
        '8'
    } else {
        '9'
    }
}

/// The decimal digits of a non-negative number, most significant first.
pub open spec fn spec_digits(n: int) -> Seq<char>
    decreases n,
{
    if n < 10 {
        seq![spec_digit_char(n)]
    } else {
        spec_digits(n / 10).push(spec_digit_char(n % 10))
    }
}

/// The decimal rendering of a number: its digits, preceded by a minus sign
/// when it is negative.
pub open spec fn spec_decimal(n: Number) -> Seq<char> {
    if n < 0 {
        seq!['-'] + spec_digits(-(n as int))
    } else {
        spec_digits(n as int)
    }
}

/// The quotient a divide pushes: Rust's truncating quotient, with the one
/// out-of-range case (`i32::MIN / -1`) wrapping back to `i32::MIN`.
pub open spec fn spec_div(a: Number, b: Number) -> Number
    recommends
        b != 0,
{
    match a.checked_div(b) {
        Some(q) => q,
        None => i32::MIN,
    }
}

/// The remainder a modulo pushes: Rust's truncating remainder, with the one
/// out-of-range case (`i32::MIN % -1`) yielding 0.
pub open spec fn spec_rem(a: Number, b: Number) -> Number
    recommends
        b != 0,
{
    match a.checked_rem(b) {
        Some(m) => m,
        None => 0i32,
    }
}

/// What an arithmetic opcode computes over left operand `a` and right
/// operand `b`. Addition, subtraction and multiplication wrap; division
/// and remainder by zero fail.
pub open spec fn spec_arith(op: Instruction, a: Number, b: Number) -> Result<Number, Error> {
    match op {
        Instruction::ADD => Ok(a.wrapping_add(b)),
        Instruction::SUB => Ok(a.wrapping_sub(b)),
        Instruction::MUL => Ok(a.wrapping_mul(b)),
        Instruction::DIV => if b == 0 {
            Err(Error::DIVISION_BY_ZERO)
        } else {
            Ok(spec_div(a, b))
        },
        Instruction::MOD => if b == 0 {
            Err(Error::DIVISION_BY_ZERO)
        } else {
            Ok(spec_rem(a, b))
        },
        _ => Err(Error::UNIMPLEMENTED_INSTRUCTION),
    }
}

/// The transition function of the machine: from a state to the next state
/// and what the step reports. A fault leaves the state exactly as it was.
pub open spec fn spec_step(pre: VmView) -> (VmView, Result<StatusView, Error>) {
    if pre.pc >= pre.instrs.len() {
        (pre, Err(Error::PC_OUT_OF_BOUNDS))
    } else {
        let ins = pre.instrs[pre.pc as int];
        let n = pre.stack.len() as int;
        match ins {
            Instruction::PUSH(v) => (
                VmView { pc: (pre.pc + 1) as usize, stack: pre.stack.push(v), ..pre },
                Ok(StatusView::Step),
            ),
            Instruction::DUP => if n < 1 {
                (pre, Err(Error::EMPTY_STACK))
            } else {
                (
                    VmView {
                        pc: (pre.pc + 1) as usize,
                        stack: pre.stack.push(pre.stack.last()),
                        ..pre
                    },
                    Ok(StatusView::Step),
                )
            },
            Instruction::SWAP => if n < 2 {
                (pre, Err(Error::EMPTY_STACK))
            } else {
                (
                    VmView {
                        pc: (pre.pc + 1) as usize,
                        stack: pre.stack.take(n - 2).push(pre.stack[n - 1]).push(
                            pre.stack[n - 2],
                        ),
                        ..pre
                    },
                    Ok(StatusView::Step),
                )
            },
            Instruction::DROP => if n < 1 {
                (pre, Err(Error::EMPTY_STACK))
            } else {
                (
                    VmView { pc: (pre.pc + 1) as usize, stack: pre.stack.drop_last(), ..pre },
                    Ok(StatusView::Step),
                )
            },
            Instruction::ADD | Instruction::SUB | Instruction::MUL | Instruction::DIV
                | Instruction::MOD => if n < 2 {
                (pre, Err(Error::EMPTY_STACK))
            } else {
                match spec_arith(ins, pre.stack[n - 2], pre.stack[n - 1]) {
                    Ok(v) => (
                        VmView {
                            pc: (pre.pc + 1) as usize,
                            stack: pre.stack.take(n - 2).push(v),
                            ..pre
                        },
                        Ok(StatusView::Step),
                    ),
                    Err(e) => (pre, Err(e)),
                }
            },
            Instruction::SHEAP => if n < 2 {
                (pre, Err(Error::EMPTY_STACK))
            } else {
                (
                    VmView {
                        pc: (pre.pc + 1) as usize,
                        stack: pre.stack.take(n - 2),
                        heap: pre.heap.insert(pre.stack[n - 2], pre.stack[n - 1]),
                        ..pre
                    },
                    Ok(StatusView::Step),
                )
            },
            Instruction::RHEAP => if n < 1 {
                (pre, Err(Error::EMPTY_STACK))
            } else if !pre.heap.contains_key(pre.stack.last()) {
                (pre, Err(Error::UNDEFINED_HEAP_ADDRESS))
            } else {
                (
                    VmView {
                        pc: (pre.pc + 1) as usize,
                        stack: pre.stack.drop_last().push(pre.heap[pre.stack.last()]),
                        ..pre
                    },
                    Ok(StatusView::Step),
                )
            },
            Instruction::LABEL(_) => (pre, Err(Error::UNIMPLEMENTED_INSTRUCTION)),
            Instruction::CALL(l) => if !pre.labels.contains_key(l) {
                (pre, Err(Error::UNDEFINED_LABEL))
            } else {
                (
                    VmView {
                        pc: pre.labels[l],
                        calls: pre.calls.push((pre.pc + 1) as usize),
                        ..pre
                    },
                    Ok(StatusView::Step),
                )
            },
            Instruction::JUMP(l) => if !pre.labels.contains_key(l) {
                (pre, Err(Error::UNDEFINED_LABEL))
            } else {
                (VmView { pc: pre.labels[l], ..pre }, Ok(StatusView::Step))
            },
            Instruction::EJUMP(l) => if n < 1 {
                (pre, Err(Error::EMPTY_STACK))
            } else if pre.stack.last() == 0 {
                if !pre.labels.contains_key(l) {
                    (pre, Err(Error::UNDEFINED_LABEL))
                } else {
                    (VmView { pc: pre.labels[l], ..pre }, Ok(StatusView::Step))
                }
            } else {
                (VmView { pc: (pre.pc + 1) as usize, ..pre }, Ok(StatusView::Step))
            },
            Instruction::NJUMP(l) => if n < 1 {
                (pre, Err(Error::EMPTY_STACK))
            } else if pre.stack.last() < 0 {
                if !pre.labels.contains_key(l) {
                    (pre, Err(Error::UNDEFINED_LABEL))
                } else {
                    (VmView { pc: pre.labels[l], ..pre }, Ok(StatusView::Step))
                }
            } else {
                (VmView { pc: (pre.pc + 1) as usize, ..pre }, Ok(StatusView::Step))
            },
            Instruction::RET => if pre.calls.len() < 1 {
                (pre, Err(Error::EMPTY_FLOW_STACK))
            } else {
                (
                    VmView { pc: pre.calls.last(), calls: pre.calls.drop_last(), ..pre },
                    Ok(StatusView::Step),
                )
            },
            Instruction::EXIT => (pre, Ok(StatusView::Exit)),
            Instruction::PRINTC => if n < 1 {
                (pre, Err(Error::EMPTY_STACK))
            } else {
                (
                    VmView { pc: (pre.pc + 1) as usize, stack: pre.stack.drop_last(), ..pre },
                    Ok(StatusView::PrintChar(pre.stack.last())),
                )
            },
            Instruction::PRINTN => if n < 1 {
                (pre, Err(Error::EMPTY_STACK))
            } else {
                (
                    VmView { pc: (pre.pc + 1) as usize, stack: pre.stack.drop_last(), ..pre },
                    Ok(StatusView::Print(spec_decimal(pre.stack.last()))),
                )
            },
            Instruction::READC => (
                VmView { pc: (pre.pc + 1) as usize, ..pre },
                Ok(StatusView::ReadChar),
            ),
            Instruction::READN => (
                VmView { pc: (pre.pc + 1) as usize, ..pre },
                Ok(StatusView::ReadInt),
            ),
        }
    }
}

/// The state a fresh interpreter starts in: the program assembled from the
/// symbols of the source text, the program counter at zero, and stacks and
/// heap empty.
pub open spec fn spec_initial(code: Seq<char>) -> VmView {
    let all = spec_decode_all(spec_symbols_of(code), 0);
    VmView {
        instrs: spec_emit(all),
        labels: spec_labels(all),
        pc: 0,
        stack: Seq::empty(),
        calls: Seq::empty(),
        heap: Map::empty(),
    }
}

/// The interpreter: an assembled program together with its execution state.
pub struct Interpreter {
    program: Program,
    pc: Label,
    stack: Vec<Number>,
    flowstack: Vec<Label>,
    heap: HashMap<Number, Number>,
}

impl View for Interpreter {
    type V = VmView;

    closed spec fn view(&self) -> VmView {
        VmView {
            instrs: self.program.instructions@,
            labels: self.program.labels@,
            pc: self.pc,
            stack: self.stack@,
            calls: self.flowstack@,
            heap: self.heap@,
        }
    }
}

/// Assembles a source text: decodes instruction after instruction, records
/// each label definition at the count of instructions emitted so far, and
/// appends every other instruction, until decoding yields nothing more.
fn compile(code: &str) -> (p: Program)
    ensures
        ({
            let all = spec_decode_all(spec_symbols_of(code@), 0);
            p.instructions@ == spec_emit(all) && p.labels@ == spec_labels(all)
        }),
{
    let mut iter = WsIter::new(code);
    let mut syms: Vec<Symbol> = Vec::new();
    let mut scanned = false;
    while !scanned
        invariant
            iter.wf(),
            syms@ + iter.remaining() == spec_symbols_of(code@),
            scanned ==> iter.remaining().len() == 0,
        decreases iter.remaining().len() + (if scanned {
            0int
        } else {
            1int
        }),
    {
        match iter.next() {
            Some(y) => {
                syms.push(y);
                proof {
                    assert(syms@ + iter.remaining() =~= spec_symbols_of(code@));
                }
            },
            None => {
                scanned = true;
            },
        }
    }
    proof {
        assert(syms@ =~= spec_symbols_of(code@));
    }

    let mut instructions: Vec<Instruction> = Vec::new();
    let mut labels: HashMap<Label, Label> = HashMap::new();
    let mut position: Label = 0;
    let mut pos: usize = 0;
    let ghost mut done: Seq<Instruction> = Seq::empty();
    let mut fin = false;
    while !fin
        invariant
            pos <= syms@.len(),
            !fin ==> spec_decode_all(syms@, 0) == done + spec_decode_all(syms@, pos as int),
            fin ==> spec_decode_all(syms@, 0) == done,
            instructions@ == spec_emit(done),
            labels@ == spec_labels(done),
            position == instructions@.len(),
        decreases syms@.len() - pos + (if fin {
            0int
        } else {
            1int
        }),
    {
        let ghost p0 = pos as int;
        let decoded = Instruction::next(&syms, &mut pos);
        proof {
            lemma_decode_progress(syms@, p0);
        }
        match decoded {
            Some(ins) => {
                proof {
                    assert(spec_decode_all(syms@, p0) == seq![ins] + spec_decode_all(
                        syms@,
                        pos as int,
                    ));
                    lemma_assemble_push(done, ins);
                    assert((done.push(ins)) + spec_decode_all(syms@, pos as int) =~= done + (
                    seq![ins] + spec_decode_all(syms@, pos as int)));
                    done = done.push(ins);
                }
                match ins {
                    Instruction::LABEL(l) => {
                        labels.insert(l, position);
                    },
                    _ => {
                        instructions.push(ins);
                        proof {
                            lemma_vec_len_bound(&instructions);
                        }
                        position = position + 1;
                    },
                }
            },
            None => {
                proof {
                    assert(spec_decode_all(syms@, p0) =~= Seq::<Instruction>::empty());
                    assert(done + spec_decode_all(syms@, p0) =~= done);
                }
                fin = true;
            },
        }
    }
    Program { instructions, labels }
}

impl Interpreter {
    /// Builds an interpreter from a source text. The program assembled, and
    /// every later step, are independent of `print_instructions`: a caller
    /// that wants a decode trace can run [`Instruction::next`] over the
    /// symbol stream itself.
    #[allow(unused_variables)]
    pub fn new(code: String, print_instructions: bool) -> (r: Interpreter)
        ensures
            r@ == spec_initial(code@),
    {
        Interpreter {
            program: compile(code.as_str()),
            pc: 0,
            stack: Vec::new(),
            flowstack: Vec::new(),
            heap: HashMap::new(),
        }
    }

    /// Pushes a caller-supplied value onto the operand stack. To be called
    /// after a step reported [`Status::ReadInt`] or [`Status::ReadChar`],
    /// before the next step.
    pub fn write(&mut self, num: Number)
        ensures
            final(self)@ == (VmView { stack: old(self)@.stack.push(num), ..old(self)@ }),
    {
        self.stack.push(num)
    }

    /// Executes one instruction: the state moves exactly as the transition
    /// function [`spec_step`] says, and the report is its outcome.
    pub fn step(&mut self) -> (r: Result<Status, Error>)
        ensures
            final(self)@ == spec_step(old(self)@).0,
            spec_outcome(r) == spec_step(old(self)@).1,
    {
        if self.pc < self.program.instructions.len() {
            let instr = self.program.instructions[self.pc];
            self.step_instr(instr)
        } else {
            Err(Error::PC_OUT_OF_BOUNDS)
        }
    }

    /// The current program counter.
    pub fn pc(&self) -> (r: usize)
        ensures
            r == self@.pc,
    {
        self.pc
    }
}

impl Interpreter {
    /// Dispatches one decoded instruction to its handler.
    fn step_instr(&mut self, instr: Instruction) -> (r: Result<Status, Error>)
        requires
            old(self)@.pc < old(self)@.instrs.len(),
            instr == old(self)@.instrs[old(self)@.pc as int],
        ensures
            final(self)@ == spec_step(old(self)@).0,
            spec_outcome(r) == spec_step(old(self)@).1,
    {
        match instr {
            Instruction::PUSH(num) => self.instr_push(num),
            Instruction::DUP => self.instr_dup(),
            Instruction::SWAP => self.instr_swap(),
            Instruction::DROP => self.instr_drop(),
            Instruction::ADD | Instruction::SUB | Instruction::MUL | Instruction::DIV
                | Instruction::MOD => self.instr_arithmetic(instr),
            Instruction::SHEAP => self.instr_sheap(),
            Instruction::RHEAP => self.instr_rheap(),
            Instruction::CALL(l) => self.instr_call(l),
            Instruction::JUMP(l) => self.instr_jump(l),
            Instruction::EJUMP(l) => self.instr_ifjump(l, true),
            Instruction::NJUMP(l) => self.instr_ifjump(l, false),
            Instruction::RET => self.instr_ret(),
            Instruction::EXIT => Ok(Status::Exit),
            Instruction::PRINTC => self.instr_printc(),
            Instruction::PRINTN => self.instr_print(),
            Instruction::READC => {
                proof {
                    lemma_vec_len_bound(&self.program.instructions);
                }
                self.pc = self.pc + 1;
                Ok(Status::ReadChar)
            },
            Instruction::READN => {
                proof {
                    lemma_vec_len_bound(&self.program.instructions);
                }
                self.pc = self.pc + 1;
                Ok(Status::ReadInt)
            },
            Instruction::LABEL(_) => Err(Error::UNIMPLEMENTED_INSTRUCTION),
        }
    }

    /// Pushes the literal and advances.
    fn instr_push(&mut self, num: Number) -> (r: Result<Status, Error>)
        requires
            old(self)@.pc < old(self)@.instrs.len(),
        ensures
            final(self)@ == (VmView {
                pc: (old(self)@.pc + 1) as usize,
                stack: old(self)@.stack.push(num),
                ..old(self)@
            }),
            r == Ok::<Status, Error>(Status::Step),
    {
        proof {
            lemma_vec_len_bound(&self.program.instructions);
        }
        self.stack.push(num);
        self.pc = self.pc + 1;
        Ok(Status::Step)
    }

    /// Pushes a copy of the top of the stack.
    fn instr_dup(&mut self) -> (r: Result<Status, Error>)
        requires
            old(self)@.pc < old(self)@.instrs.len(),
        ensures
            old(self)@.stack.len() == 0 ==> final(self)@ == old(self)@ && r == Err::<
                Status,
                Error,
            >(Error::EMPTY_STACK),
            old(self)@.stack.len() > 0 ==> final(self)@ == (VmView {
                pc: (old(self)@.pc + 1) as usize,
                stack: old(self)@.stack.push(old(self)@.stack.last()),
                ..old(self)@
            }) && r == Ok::<Status, Error>(Status::Step),
    {
        proof {
            lemma_vec_len_bound(&self.program.instructions);
        }
        if self.stack.len() >= 1 {
            let last = self.stack[self.stack.len() - 1];
            self.stack.push(last);
            self.pc = self.pc + 1;
            Ok(Status::Step)
        } else {
            Err(Error::EMPTY_STACK)
        }
    }

    /// Exchanges the two topmost stack values.
    fn instr_swap(&mut self) -> (r: Result<Status, Error>)
        requires
            old(self)@.pc < old(self)@.instrs.len(),
        ensures
            old(self)@.stack.len() < 2 ==> final(self)@ == old(self)@ && r == Err::<
                Status,
                Error,
            >(Error::EMPTY_STACK),
            old(self)@.stack.len() >= 2 ==> final(self)@ == (VmView {
                pc: (old(self)@.pc + 1) as usize,
                stack: ({
                    let n = old(self)@.stack.len() as int;
                    old(self)@.stack.take(n - 2).push(old(self)@.stack[n - 1]).push(
                        old(self)@.stack[n - 2],
                    )
                }),
                ..old(self)@
            }) && r == Ok::<Status, Error>(Status::Step),
    {
        proof {
            lemma_vec_len_bound(&self.program.instructions);
        }
        if self.stack.len() >= 2 {
            let f = self.stack.pop().unwrap();
            let s = self.stack.pop().unwrap();
            self.stack.push(f);
            self.stack.push(s);
            self.pc = self.pc + 1;
            proof {
                let n = old(self)@.stack.len() as int;
                assert(self.stack@ =~= old(self)@.stack.take(n - 2).push(
                    old(self)@.stack[n - 1],
                ).push(old(self)@.stack[n - 2]));
            }
            Ok(Status::Step)
        } else {
            Err(Error::EMPTY_STACK)
        }
    }

    /// Removes the top of the stack.
    fn instr_drop(&mut self) -> (r: Result<Status, Error>)
        requires
            old(self)@.pc < old(self)@.instrs.len(),
        ensures
            old(self)@.stack.len() == 0 ==> final(self)@ == old(self)@ && r == Err::<
                Status,
                Error,
            >(Error::EMPTY_STACK),
            old(self)@.stack.len() > 0 ==> final(self)@ == (VmView {
                pc: (old(self)@.pc + 1) as usize,
                stack: old(self)@.stack.drop_last(),
                ..old(self)@
            }) && r == Ok::<Status, Error>(Status::Step),
    {
        proof {
            lemma_vec_len_bound(&self.program.instructions);
        }
        match self.stack.pop() {
            Some(_) => {
                self.pc = self.pc + 1;
                proof {
                    assert(self.stack@ =~= old(self)@.stack.drop_last());
                }
                Ok(Status::Step)
            },
            None => Err(Error::EMPTY_STACK),
        }
    }

    /// Pops right then left operand, applies the opcode's operator and
    /// pushes the result. On a fault nothing is popped.
    fn instr_arithmetic(&mut self, op: Instruction) -> (r: Result<Status, Error>)
        requires
            old(self)@.pc < old(self)@.instrs.len(),
        ensures
            old(self)@.stack.len() < 2 ==> final(self)@ == old(self)@ && r == Err::<
                Status,
                Error,
            >(Error::EMPTY_STACK),
            old(self)@.stack.len() >= 2 ==> ({
                let n = old(self)@.stack.len() as int;
                match spec_arith(op, old(self)@.stack[n - 2], old(self)@.stack[n - 1]) {
                    Ok(v) => final(self)@ == (VmView {
                        pc: (old(self)@.pc + 1) as usize,
                        stack: old(self)@.stack.take(n - 2).push(v),
                        ..old(self)@
                    }) && r == Ok::<Status, Error>(Status::Step),
                    Err(e) => final(self)@ == old(self)@ && r == Err::<Status, Error>(e),
                }
            }),
    {
        proof {
            lemma_vec_len_bound(&self.program.instructions);
        }
        if self.stack.len() >= 2 {
            let right = self.stack[self.stack.len() - 1];
            let left = self.stack[self.stack.len() - 2];
            let computed: Result<Number, Error> = match op {
                Instruction::ADD => Ok(left.wrapping_add(right)),
                Instruction::SUB => Ok(left.wrapping_sub(right)),
                Instruction::MUL => Ok(left.wrapping_mul(right)),
                Instruction::DIV => if right != 0 {
                    Ok(
                        match left.checked_div(right) {
                            Some(q) => q,
                            None => i32::MIN,
                        },
                    )
                } else {
                    Err(Error::DIVISION_BY_ZERO)
                },
                Instruction::MOD => if right != 0 {
                    Ok(
                        match left.checked_rem(right) {
                            Some(m) => m,
                            None => 0i32,
                        },
                    )
                } else {
                    Err(Error::DIVISION_BY_ZERO)
                },
                _ => Err(Error::UNIMPLEMENTED_INSTRUCTION),
            };
            match computed {
                Ok(res) => {
                    self.stack.pop();
                    self.stack.pop();
                    self.stack.push(res);
                    self.pc = self.pc + 1;
                    proof {
                        let n = old(self)@.stack.len() as int;
                        assert(self.stack@ =~= old(self)@.stack.take(n - 2).push(res));
                    }
                    Ok(Status::Step)
                },
                Err(err) => Err(err),
            }
        } else {
            Err(Error::EMPTY_STACK)
        }
    }

    /// Pops a value then an address and stores the value at the address.
    fn instr_sheap(&mut self) -> (r: Result<Status, Error>)
        requires
            old(self)@.pc < old(self)@.instrs.len(),
        ensures
            old(self)@.stack.len() < 2 ==> final(self)@ == old(self)@ && r == Err::<
                Status,
                Error,
            >(Error::EMPTY_STACK),
            old(self)@.stack.len() >= 2 ==> ({
                let n = old(self)@.stack.len() as int;
                final(self)@ == (VmView {
                    pc: (old(self)@.pc + 1) as usize,
                    stack: old(self)@.stack.take(n - 2),
                    heap: old(self)@.heap.insert(old(self)@.stack[n - 2], old(self)@.stack[n - 1]),
                    ..old(self)@
                }) && r == Ok::<Status, Error>(Status::Step)
            }),
    {
        proof {
            lemma_vec_len_bound(&self.program.instructions);
        }
        if self.stack.len() >= 2 {
            let value = self.stack.pop().unwrap();
            let addr = self.stack.pop().unwrap();
            self.heap.insert(addr, value);
            self.pc = self.pc + 1;
            proof {
                let n = old(self)@.stack.len() as int;
                assert(self.stack@ =~= old(self)@.stack.take(n - 2));
            }
            Ok(Status::Step)
        } else {
            Err(Error::EMPTY_STACK)
        }
    }

    /// Pops an address and pushes the value stored there.
    fn instr_rheap(&mut self) -> (r: Result<Status, Error>)
        requires
            old(self)@.pc < old(self)@.instrs.len(),
        ensures
            old(self)@.stack.len() == 0 ==> final(self)@ == old(self)@ && r == Err::<
                Status,
                Error,
            >(Error::EMPTY_STACK),
            old(self)@.stack.len() > 0 && !old(self)@.heap.contains_key(old(self)@.stack.last())
                ==> final(self)@ == old(self)@ && r == Err::<Status, Error>(
                Error::UNDEFINED_HEAP_ADDRESS,
            ),
            old(self)@.stack.len() > 0 && old(self)@.heap.contains_key(old(self)@.stack.last())
                ==> final(self)@ == (VmView {
                pc: (old(self)@.pc + 1) as usize,
                stack: old(self)@.stack.drop_last().push(
                    old(self)@.heap[old(self)@.stack.last()],
                ),
                ..old(self)@
            }) && r == Ok::<Status, Error>(Status::Step),
    {
        proof {
            lemma_vec_len_bound(&self.program.instructions);
        }
        if self.stack.len() >= 1 {
            let addr = self.stack[self.stack.len() - 1];
            match self.heap.get(&addr) {
                Some(v) => {
                    let val = *v;
                    self.stack.pop();
                    self.stack.push(val);
                    self.pc = self.pc + 1;
                    proof {
                        assert(self.stack@ =~= old(self)@.stack.drop_last().push(
                            old(self)@.heap[old(self)@.stack.last()],
                        ));
                    }
                    Ok(Status::Step)
                },
                None => Err(Error::UNDEFINED_HEAP_ADDRESS),
            }
        } else {
            Err(Error::EMPTY_STACK)
        }
    }

    /// Moves the program counter to the position a label resolves to.
    fn to_label(&mut self, label: Label) -> (r: Result<Status, Error>)
        ensures
            !old(self)@.labels.contains_key(label) ==> final(self)@ == old(self)@ && r == Err::<
                Status,
                Error,
            >(Error::UNDEFINED_LABEL),
            old(self)@.labels.contains_key(label) ==> final(self)@ == (VmView {
                pc: old(self)@.labels[label],
                ..old(self)@
            }) && r == Ok::<Status, Error>(Status::Step),
    {
        match self.program.labels.get(&label) {
            Some(l) => {
                let target = *l;
                self.pc = target;
                Ok(Status::Step)
            },
            None => Err(Error::UNDEFINED_LABEL),
        }
    }

    /// Saves the position after the call on the call stack, then jumps to
    /// the label. An unresolved label leaves the call stack untouched.
    fn instr_call(&mut self, label: Label) -> (r: Result<Status, Error>)
        requires
            old(self)@.pc < old(self)@.instrs.len(),
        ensures
            !old(self)@.labels.contains_key(label) ==> final(self)@ == old(self)@ && r == Err::<
                Status,
                Error,
            >(Error::UNDEFINED_LABEL),
            old(self)@.labels.contains_key(label) ==> final(self)@ == (VmView {
                pc: old(self)@.labels[label],
                calls: old(self)@.calls.push((old(self)@.pc + 1) as usize),
                ..old(self)@
            }) && r == Ok::<Status, Error>(Status::Step),
    {
        proof {
            lemma_vec_len_bound(&self.program.instructions);
        }
        if self.program.labels.contains_key(&label) {
            self.flowstack.push(self.pc + 1);
            self.to_label(label)
        } else {
            Err(Error::UNDEFINED_LABEL)
        }
    }

    /// Jumps to the label unconditionally.
    fn instr_jump(&mut self, label: Label) -> (r: Result<Status, Error>)
        ensures
            !old(self)@.labels.contains_key(label) ==> final(self)@ == old(self)@ && r == Err::<
                Status,
                Error,
            >(Error::UNDEFINED_LABEL),
            old(self)@.labels.contains_key(label) ==> final(self)@ == (VmView {
                pc: old(self)@.labels[label],
                ..old(self)@
            }) && r == Ok::<Status, Error>(Status::Step),
    {
        self.to_label(label)
    }

    /// Reads, without removing, the top of the stack; jumps when the
    /// predicate holds (zero with `on_zero`, negative otherwise) and
    /// advances normally when it does not. The label is resolved only when
    /// the jump is taken.
    fn instr_ifjump(&mut self, label: Label, on_zero: bool) -> (r: Result<Status, Error>)
        requires
            old(self)@.pc < old(self)@.instrs.len(),
        ensures
            old(self)@.stack.len() == 0 ==> final(self)@ == old(self)@ && r == Err::<
                Status,
                Error,
            >(Error::EMPTY_STACK),
            old(self)@.stack.len() > 0 ==> ({
                let top = old(self)@.stack.last();
                let jump = if on_zero {
                    top == 0
                } else {
                    top < 0
                };
                if jump {
                    if old(self)@.labels.contains_key(label) {
                        final(self)@ == (VmView { pc: old(self)@.labels[label], ..old(self)@ })
                            && r == Ok::<Status, Error>(Status::Step)
                    } else {
                        final(self)@ == old(self)@ && r == Err::<Status, Error>(
                            Error::UNDEFINED_LABEL,
                        )
                    }
                } else {
                    final(self)@ == (VmView { pc: (old(self)@.pc + 1) as usize, ..old(self)@ })
                        && r == Ok::<Status, Error>(Status::Step)
                }
            }),
    {
        proof {
            lemma_vec_len_bound(&self.program.instructions);
        }
        if self.stack.len() >= 1 {
            let top = self.stack[self.stack.len() - 1];
            let jump = if on_zero {
                top == 0
            } else {
                top < 0
            };
            if jump {
                self.to_label(label)
            } else {
                self.pc = self.pc + 1;
                Ok(Status::Step)
            }
        } else {
            Err(Error::EMPTY_STACK)
        }
    }

    /// Pops the most recent saved position off the call stack and returns
    /// there: the position just after the matching call.
    fn instr_ret(&mut self) -> (r: Result<Status, Error>)
        ensures
            old(self)@.calls.len() == 0 ==> final(self)@ == old(self)@ && r == Err::<
                Status,
                Error,
            >(Error::EMPTY_FLOW_STACK),
            old(self)@.calls.len() > 0 ==> final(self)@ == (VmView {
                pc: old(self)@.calls.last(),
                calls: old(self)@.calls.drop_last(),
                ..old(self)@
            }) && r == Ok::<Status, Error>(Status::Step),
    {
        match self.flowstack.pop() {
            Some(target) => {
                self.pc = target;
                proof {
                    assert(self.flowstack@ =~= old(self)@.calls.drop_last());
                }
                Ok(Status::Step)
            },
            None => Err(Error::EMPTY_FLOW_STACK),
        }
    }

    /// Pops the top of the stack and reports it as a code point to render.
    fn instr_printc(&mut self) -> (r: Result<Status, Error>)
        requires
            old(self)@.pc < old(self)@.instrs.len(),
        ensures
            old(self)@.stack.len() == 0 ==> final(self)@ == old(self)@ && r == Err::<
                Status,
                Error,
            >(Error::EMPTY_STACK),
            old(self)@.stack.len() > 0 ==> final(self)@ == (VmView {
                pc: (old(self)@.pc + 1) as usize,
                stack: old(self)@.stack.drop_last(),
                ..old(self)@
            }) && spec_outcome(r) == Ok::<StatusView, Error>(
                StatusView::PrintChar(old(self)@.stack.last()),
            ),
    {
        proof {
            lemma_vec_len_bound(&self.program.instructions);
        }
        match self.stack.pop() {
            Some(last) => {
                self.pc = self.pc + 1;
                proof {
                    assert(self.stack@ =~= old(self)@.stack.drop_last());
                }
                Ok(Status::PrintChar(last))
            },
            None => Err(Error::EMPTY_STACK),
        }
    }

    /// Pops the top of the stack and reports its decimal rendering.
    fn instr_print(&mut self) -> (r: Result<Status, Error>)
        requires
            old(self)@.pc < old(self)@.instrs.len(),
        ensures
            old(self)@.stack.len() == 0 ==> final(self)@ == old(self)@ && r == Err::<
                Status,
                Error,
            >(Error::EMPTY_STACK),
            old(self)@.stack.len() > 0 ==> final(self)@ == (VmView {
                pc: (old(self)@.pc + 1) as usize,
                stack: old(self)@.stack.drop_last(),
                ..old(self)@
            }) && spec_outcome(r) == Ok::<StatusView, Error>(
                StatusView::Print(spec_decimal(old(self)@.stack.last())),
            ),
    {
        proof {
            lemma_vec_len_bound(&self.program.instructions);
        }
        match self.stack.pop() {
            Some(last) => {
                self.pc = self.pc + 1;
                proof {
                    assert(self.stack@ =~= old(self)@.stack.drop_last());
                }
                Ok(Status::Print(decimal_string(last)))
            },
            None => Err(Error::EMPTY_STACK),
        }
    }
}

/// Appends the character of one decimal digit.
fn push_digit(s: &mut String, d: u32)
    requires
        d < 10,
    ensures
        final(s)@ == old(s)@.push(spec_digit_char(d as int)),
{
    let t: &str = match d {
        0 => "0",
        1 => "1",
        2 => "2",
        3 => "3",
        4 => "4",
        5 => "5",
        6 => "6",
        7 => "7",
        8 => "8",
        _ => "9",
    };
    proof {
        reveal_strlit("0");
        reveal_strlit("1");
        reveal_strlit("2");
        reveal_strlit("3");
        reveal_strlit("4");
        reveal_strlit("5");
        reveal_strlit("6");
        reveal_strlit("7");
        reveal_strlit("8");
        reveal_strlit("9");
        assert(old(s)@ + t@ =~= old(s)@.push(spec_digit_char(d as int)));
    }
    s.append(t);
}

/// Appends the decimal digits of `m`, most significant first.
fn push_decimal(s: &mut String, m: u32)
    ensures
        final(s)@ == old(s)@ + spec_digits(m as int),
    decreases m,
{
    if m >= 10 {
        push_decimal(s, m / 10);
    }
    push_digit(s, m % 10);
    proof {
        if m < 10 {
            assert(old(s)@ + spec_digits(m as int) =~= old(s)@.push(spec_digit_char(m as int)));
        } else {
            assert(old(s)@ + spec_digits(m as int) =~= (old(s)@ + spec_digits(m as int / 10)).push(
                spec_digit_char(m as int % 10),
            ));
        }
    }
}

/// A label defined when `k` instructions had been emitted, and not defined
/// again afterward, resolves to `k` in the assembled label table — here
/// `decoded` is the full decoded sequence, label definitions included, and
/// `k` is `spec_emit(decoded.take(i)).len()`. Since a later definition of
/// the same id overwrites an earlier one, this also says that the last
/// definition wins.
pub proof fn lemma_label_resolution(decoded: Seq<Instruction>, i: int, l: Label)
    requires
        0 <= i < decoded.len(),
        decoded[i] == Instruction::LABEL(l),
        forall|j: int| i < j < decoded.len() ==> decoded[j] != Instruction::LABEL(l),
    ensures
        spec_labels(decoded).contains_key(l),
        spec_labels(decoded)[l] == spec_emit(decoded.take(i)).len() as usize,
    decreases decoded.len(),
{
    if i == decoded.len() - 1 {
        assert(decoded.drop_last() =~= decoded.take(i));
    } else {
        assert(decoded.last() != Instruction::LABEL(l));
        lemma_label_resolution(decoded.drop_last(), i, l);
        assert(decoded.drop_last().take(i) =~= decoded.take(i));
    }
}

/// Executing a jump or call to a label that was defined when `k`
/// instructions had been emitted, and never redefined afterward, reports
/// no fault and moves the program counter to `k`.
pub proof fn lemma_jump_to_defined_label(decoded: Seq<Instruction>, i: int, l: Label, pre: VmView)
    requires
        pre.labels == spec_labels(decoded),
        0 <= i < decoded.len(),
        decoded[i] == Instruction::LABEL(l),
        forall|j: int| i < j < decoded.len() ==> decoded[j] != Instruction::LABEL(l),
        pre.pc < pre.instrs.len(),
        pre.instrs[pre.pc as int] == Instruction::JUMP(l) || pre.instrs[pre.pc as int]
            == Instruction::CALL(l),
    ensures
        spec_step(pre).1 == Ok::<StatusView, Error>(StatusView::Step),
        spec_step(pre).0.pc == spec_emit(decoded.take(i)).len() as usize,
{
    lemma_label_resolution(decoded, i, l);
}

/// How many operands an opcode takes off or reads from the operand stack
/// before anything else can fail, for the opcodes that always touch it.
pub open spec fn spec_operands(ins: Instruction) -> Option<nat> {
    match ins {
        Instruction::DUP | Instruction::DROP | Instruction::RHEAP | Instruction::PRINTC
            | Instruction::PRINTN => Some(1nat),
        Instruction::SWAP | Instruction::ADD | Instruction::SUB | Instruction::MUL
            | Instruction::DIV | Instruction::MOD | Instruction::SHEAP => Some(2nat),
        _ => None,
    }
}

/// An instruction that needs more operands than the stack holds faults
/// with `EMPTY_STACK` and leaves the whole state exactly as it was.
pub proof fn lemma_stack_underflow(pre: VmView)
    requires
        pre.pc < pre.instrs.len(),
        match spec_operands(pre.instrs[pre.pc as int]) {
            Some(k) => pre.stack.len() < k,
            None => false,
        },
    ensures
        spec_step(pre).0 == pre,
        spec_step(pre).1 == Err::<StatusView, Error>(Error::EMPTY_STACK),
{
}

/// A program counter with no instruction under it — in particular one that
/// ran off the end of the program without an exit — faults with
/// `PC_OUT_OF_BOUNDS` and changes nothing.
pub proof fn lemma_out_of_bounds(pre: VmView)
    requires
        pre.pc >= pre.instrs.len(),
    ensures
        spec_step(pre).0 == pre,
        spec_step(pre).1 == Err::<StatusView, Error>(Error::PC_OUT_OF_BOUNDS),
{
}

/// Storing a value at an address and later retrieving that address, with
/// the heap untouched in between, succeeds and puts the stored value on
/// top of the stack.
pub proof fn lemma_heap_round_trip(pre: VmView, s2: VmView)
    requires
        pre.pc < pre.instrs.len(),
        pre.instrs[pre.pc as int] == Instruction::SHEAP,
        pre.stack.len() >= 2,
        s2.heap == spec_step(pre).0.heap,
        s2.pc < s2.instrs.len(),
        s2.instrs[s2.pc as int] == Instruction::RHEAP,
        s2.stack.len() >= 1,
        s2.stack.last() == pre.stack[pre.stack.len() - 2],
    ensures
        spec_step(pre).1 == Ok::<StatusView, Error>(StatusView::Step),
        spec_step(s2).1 == Ok::<StatusView, Error>(StatusView::Step),
        spec_step(s2).0.stack.len() == s2.stack.len(),
        spec_step(s2).0.stack.last() == pre.stack[pre.stack.len() - 1],
{
}

/// Renders a number in decimal, with a minus sign when it is negative.
fn decimal_string(n: Number) -> (t: String)
    ensures
        t@ == spec_decimal(n),
{
    let mut t = String::new();
    if n >= 0 {
        push_decimal(&mut t, n as u32);
        proof {
            assert(t@ =~= spec_decimal(n));
        }
    } else {
        proof {
            reveal_strlit("-");
        }
        t.append("-");
        let mag: u32 = (-(n as i64)) as u32;
        push_decimal(&mut t, mag);
        proof {
            assert(t@ =~= seq!['-'] + spec_digits(-(n as int)));
        }
    }
    t
}

} // verus!
