use crate::symbol::Symbol;
use vstd::prelude::*;

verus! {

/// The payload type of `PUSH`: a 32-bit signed machine word.
pub type Number = i32;

/// The payload type of label instructions and of program positions.
pub type Label = usize;

/// One decoded operation, with its numeric or label payload where the
/// grammar calls for one.
#[derive(Debug, Clone, Copy, PartialEq, Eq, Structural)]
#[allow(missing_docs)]
pub enum Instruction {
    PUSH(Number),
    DUP,
    SWAP,
    DROP,
    ADD,
    SUB,
    MUL,
    DIV,
    MOD,
    SHEAP,
    RHEAP,
    LABEL(Label),
    CALL(Label),
    JUMP(Label),
    EJUMP(Label),
    NJUMP(Label),
    RET,
    EXIT,
    PRINTC,
    PRINTN,
    READC,
    READN,
}

/// The value of a bit string read most-significant-first, with `S` as 0 and
/// `T` as 1, accumulated into a 32-bit word: bits shifted out at the top are
/// discarded.
pub open spec fn spec_literal_num(bits: Seq<Symbol>) -> i32
    decreases bits.len(),
{
    if bits.len() == 0 {
        0i32
    } else {
        let hi = spec_literal_num(bits.drop_last());
        let b: i32 = if bits.last() == Symbol::T {
            1i32
        } else {
            0i32
        };
        hi.wrapping_mul(2).wrapping_add(b)
    }
}

/// The value of a bit string read most-significant-first, accumulated into a
/// `usize` word: bits shifted out at the top are discarded.
pub open spec fn spec_literal_label(bits: Seq<Symbol>) -> usize
    decreases bits.len(),
{
    if bits.len() == 0 {
        0usize
    } else {
        let hi = spec_literal_label(bits.drop_last());
        let b: usize = if bits.last() == Symbol::T {
            1usize
        } else {
            0usize
        };
        hi.wrapping_mul(2).wrapping_add(b)
    }
}

/// The position of the `L` that terminates a literal starting at `i`, or the
/// end of the stream when no terminator follows.
pub open spec fn spec_lit_end(s: Seq<Symbol>, i: int) -> int
    decreases s.len() - i,
{
    if i < 0 || i >= s.len() {
        s.len() as int
    } else if s[i] == Symbol::L {
        i
    } else {
        spec_lit_end(s, i + 1)
    }
}

/// The bit symbols of the literal starting at `i`: everything up to its
/// terminator or to the end of the stream.
pub open spec fn spec_lit_bits(s: Seq<Symbol>, i: int) -> Seq<Symbol> {
    s.subrange(i, spec_lit_end(s, i))
}

/// The position just past the literal starting at `i`: past the terminator
/// when there is one, else the end of the stream.
pub open spec fn spec_lit_next(s: Seq<Symbol>, i: int) -> int {
    if spec_lit_end(s, i) < s.len() {
        spec_lit_end(s, i) + 1
    } else {
        s.len() as int
    }
}

/// What decoding a stack-category instruction yields, `first` being the
/// symbol after the `S` category prefix and `i` the position after both: the
/// instruction decoded, if any, and the position of the first symbol not
/// consumed.
pub open spec fn spec_next_stack(s: Seq<Symbol>, i: int, first: Symbol) -> (
    Option<Instruction>,
    int,
) {
    match first {
        Symbol::S => (
            Some(Instruction::PUSH(spec_literal_num(spec_lit_bits(s, i)))),
            spec_lit_next(s, i),
        ),
        Symbol::L => if i >= s.len() {
            (None, s.len() as int)
        } else {
            match s[i] {
                Symbol::S => (Some(Instruction::DUP), i + 1),
                Symbol::T => (Some(Instruction::SWAP), i + 1),
                Symbol::L => (Some(Instruction::DROP), i + 1),
            }
        },
        Symbol::T => (None, i),
    }
}

/// What decoding an arithmetic instruction yields once the `T S` category
/// prefix has been consumed, with `i` the position after the prefix.
pub open spec fn spec_next_arith(s: Seq<Symbol>, i: int) -> (Option<Instruction>, int) {
    if i + 2 > s.len() {
        (None, s.len() as int)
    } else {
        match (s[i], s[i + 1]) {
            (Symbol::S, Symbol::S) => (Some(Instruction::ADD), i + 2),
            (Symbol::S, Symbol::T) => (Some(Instruction::SUB), i + 2),
            (Symbol::S, Symbol::L) => (Some(Instruction::MUL), i + 2),
            (Symbol::T, Symbol::S) => (Some(Instruction::DIV), i + 2),
            (Symbol::T, Symbol::T) => (Some(Instruction::MOD), i + 2),
            _ => (None, i + 2),
        }
    }
}

/// What decoding a heap instruction yields once the `T T` category prefix
/// has been consumed, with `i` the position after the prefix.
pub open spec fn spec_next_heap(s: Seq<Symbol>, i: int) -> (Option<Instruction>, int) {
    if i >= s.len() {
        (None, s.len() as int)
    } else {
        match s[i] {
            Symbol::S => (Some(Instruction::SHEAP), i + 1),
            Symbol::T => (Some(Instruction::RHEAP), i + 1),
            Symbol::L => (None, i + 1),
        }
    }
}

/// What decoding a flow instruction yields, `first` being the symbol after
/// the `L` category prefix and `i` the position after both.
pub open spec fn spec_next_flow(s: Seq<Symbol>, i: int, first: Symbol) -> (
    Option<Instruction>,
    int,
) {
    if i >= s.len() {
        (None, s.len() as int)
    } else {
        match (first, s[i]) {
            (Symbol::S, Symbol::S) => (
                Some(Instruction::LABEL(spec_literal_label(spec_lit_bits(s, i + 1)))),
                spec_lit_next(s, i + 1),
            ),
            (Symbol::S, Symbol::T) => (
                Some(Instruction::CALL(spec_literal_label(spec_lit_bits(s, i + 1)))),
                spec_lit_next(s, i + 1),
            ),
            (Symbol::S, Symbol::L) => (
                Some(Instruction::JUMP(spec_literal_label(spec_lit_bits(s, i + 1)))),
                spec_lit_next(s, i + 1),
            ),
            (Symbol::T, Symbol::S) => (
                Some(Instruction::EJUMP(spec_literal_label(spec_lit_bits(s, i + 1)))),
                spec_lit_next(s, i + 1),
            ),
            (Symbol::T, Symbol::T) => (
                Some(Instruction::NJUMP(spec_literal_label(spec_lit_bits(s, i + 1)))),
                spec_lit_next(s, i + 1),
            ),
            (Symbol::T, Symbol::L) => (Some(Instruction::RET), i + 1),
            _ => (None, i + 1),
        }
    }
}

/// What decoding an input/output instruction yields once the `T L` category
/// prefix has been consumed, with `i` the position after the prefix.
pub open spec fn spec_next_io(s: Seq<Symbol>, i: int) -> (Option<Instruction>, int) {
    if i + 2 > s.len() {
        (None, s.len() as int)
    } else {
        match (s[i], s[i + 1]) {
            (Symbol::S, Symbol::S) => (Some(Instruction::PRINTC), i + 2),
            (Symbol::S, Symbol::T) => (Some(Instruction::PRINTN), i + 2),
            (Symbol::T, Symbol::S) => (Some(Instruction::READC), i + 2),
            (Symbol::T, Symbol::T) => (Some(Instruction::READN), i + 2),
            _ => (None, i + 2),
        }
    }
}

/// What decoding one instruction at position `i` of a symbol stream yields:
/// the instruction, or `None` when the stream ends or no production of the
/// prefix code matches, together with the position of the first symbol not
/// consumed.
pub open spec fn spec_decode(s: Seq<Symbol>, i: int) -> (Option<Instruction>, int) {
    if i + 2 > s.len() {
        (None, s.len() as int)
    } else {
        match (s[i], s[i + 1]) {
            (Symbol::S, b) => spec_next_stack(s, i + 2, b),
            (Symbol::T, Symbol::S) => spec_next_arith(s, i + 2),
            (Symbol::T, Symbol::T) => spec_next_heap(s, i + 2),
            (Symbol::T, Symbol::L) => spec_next_io(s, i + 2),
            (Symbol::L, Symbol::L) => (Some(Instruction::EXIT), i + 2),
            (Symbol::L, b) => spec_next_flow(s, i + 2, b),
        }
    }
}

/// The terminator of a literal never lies before its start nor past the end
/// of the stream.
pub proof fn lemma_lit_end_bounds(s: Seq<Symbol>, i: int)
    requires
        0 <= i <= s.len(),
    ensures
        i <= spec_lit_end(s, i) <= s.len(),
    decreases s.len() - i,
{
    if i < s.len() && s[i] != Symbol::L {
        lemma_lit_end_bounds(s, i + 1);
    }
}

/// Decoding never moves the cursor backwards nor past the end of the
/// stream, and consumes at least one symbol whenever it yields an
/// instruction.
pub proof fn lemma_decode_progress(s: Seq<Symbol>, i: int)
    requires
        0 <= i <= s.len(),
    ensures
        i <= spec_decode(s, i).1 <= s.len(),
        spec_decode(s, i).0 is Some ==> i < spec_decode(s, i).1,
{
    if i + 2 <= s.len() {
        lemma_lit_end_bounds(s, i + 2);
        if i + 3 <= s.len() {
            lemma_lit_end_bounds(s, i + 3);
        }
    }
}

/// Every instruction of a symbol stream in decoding order, label
/// definitions included, starting at position `i`.
pub open spec fn spec_decode_all(s: Seq<Symbol>, i: int) -> Seq<Instruction>
    decreases s.len() - i
        when 0 <= i <= s.len()
        via spec_decode_all_dec
{
    match spec_decode(s, i).0 {
        Some(ins) => seq![ins] + spec_decode_all(s, spec_decode(s, i).1),
        None => Seq::empty(),
    }
}

#[via_fn]
proof fn spec_decode_all_dec(s: Seq<Symbol>, i: int) {
    lemma_decode_progress(s, i);
}

/// Yields the next symbol of the stream and advances the cursor, or yields
/// `None` at the end.
fn read(syms: &Vec<Symbol>, pos: &mut usize) -> (r: Option<Symbol>)
    requires
        *old(pos) <= syms@.len(),
    ensures
        *old(pos) < syms@.len() ==> r == Some(syms@[*old(pos) as int]) && *final(pos) == *old(pos)
            + 1,
        *old(pos) >= syms@.len() ==> r == None::<Symbol> && *final(pos) == *old(pos),
{
    if *pos < syms.len() {
        let y = syms[*pos];
        *pos = *pos + 1;
        Some(y)
    } else {
        None
    }
}

impl Instruction {
    /// Decodes one instruction from the symbol stream at the cursor.
    /// Returns `None`, leaving the cursor wherever the attempt stopped, when
    /// the stream is exhausted or no production of the prefix code matches.
    pub fn next(syms: &Vec<Symbol>, pos: &mut usize) -> (r: Option<Instruction>)
        requires
            *old(pos) <= syms@.len(),
        ensures
            r == spec_decode(syms@, *old(pos) as int).0,
            *final(pos) == spec_decode(syms@, *old(pos) as int).1,
    {
        let fst = read(syms, pos);
        let sec = read(syms, pos);
        match (fst, sec) {
            (Some(Symbol::S), Some(b)) => Self::next_stack(b, syms, pos),
            (Some(Symbol::T), Some(Symbol::S)) => Self::next_arithmetic(syms, pos),
            (Some(Symbol::T), Some(Symbol::T)) => Self::next_heap(syms, pos),
            (Some(Symbol::L), Some(Symbol::L)) => Some(Instruction::EXIT),
            (Some(Symbol::L), Some(b)) => Self::next_flow(b, syms, pos),
            (Some(Symbol::T), Some(Symbol::L)) => Self::next_io(syms, pos),
            _ => None,
        }
    }

    /// Decodes the tail of a stack-category instruction, `first` being the
    /// symbol that followed the category prefix.
    fn next_stack(first: Symbol, syms: &Vec<Symbol>, pos: &mut usize) -> (r: Option<Instruction>)
        requires
            *old(pos) <= syms@.len(),
        ensures
            r == spec_next_stack(syms@, *old(pos) as int, first).0,
            *final(pos) == spec_next_stack(syms@, *old(pos) as int, first).1,
    {
        match first {
            Symbol::S => Some(Instruction::PUSH(Self::next_param_num(syms, pos))),
            Symbol::L => match read(syms, pos) {
                Some(Symbol::S) => Some(Instruction::DUP),
                Some(Symbol::T) => Some(Instruction::SWAP),
                Some(Symbol::L) => Some(Instruction::DROP),
                None => None,
            },
            Symbol::T => None,
        }
    }

    /// Decodes the sub-opcode of an arithmetic instruction.
    fn next_arithmetic(syms: &Vec<Symbol>, pos: &mut usize) -> (r: Option<Instruction>)
        requires
            *old(pos) <= syms@.len(),
        ensures
            r == spec_next_arith(syms@, *old(pos) as int).0,
            *final(pos) == spec_next_arith(syms@, *old(pos) as int).1,
    {
        let a = read(syms, pos);
        let b = read(syms, pos);
        match (a, b) {
            (Some(Symbol::S), Some(Symbol::S)) => Some(Instruction::ADD),
            (Some(Symbol::S), Some(Symbol::T)) => Some(Instruction::SUB),
            (Some(Symbol::S), Some(Symbol::L)) => Some(Instruction::MUL),
            (Some(Symbol::T), Some(Symbol::S)) => Some(Instruction::DIV),
            (Some(Symbol::T), Some(Symbol::T)) => Some(Instruction::MOD),
            _ => None,
        }
    }

    /// Decodes the sub-opcode of a heap instruction.
    fn next_heap(syms: &Vec<Symbol>, pos: &mut usize) -> (r: Option<Instruction>)
        requires
            *old(pos) <= syms@.len(),
        ensures
            r == spec_next_heap(syms@, *old(pos) as int).0,
            *final(pos) == spec_next_heap(syms@, *old(pos) as int).1,
    {
        match read(syms, pos) {
            Some(Symbol::S) => Some(Instruction::SHEAP),
            Some(Symbol::T) => Some(Instruction::RHEAP),
            _ => None,
        }
    }

    /// Decodes the tail of a flow instruction, `first` being the symbol that
    /// followed the category prefix.
    fn next_flow(first: Symbol, syms: &Vec<Symbol>, pos: &mut usize) -> (r: Option<Instruction>)
        requires
            *old(pos) <= syms@.len(),
        ensures
            r == spec_next_flow(syms@, *old(pos) as int, first).0,
            *final(pos) == spec_next_flow(syms@, *old(pos) as int, first).1,
    {
        let y = read(syms, pos);
        match (first, y) {
            (Symbol::S, Some(Symbol::S)) => Some(
                Instruction::LABEL(Self::next_param_label(syms, pos)),
            ),
            (Symbol::S, Some(Symbol::T)) => Some(
                Instruction::CALL(Self::next_param_label(syms, pos)),
            ),
            (Symbol::S, Some(Symbol::L)) => Some(
                Instruction::JUMP(Self::next_param_label(syms, pos)),
            ),
            (Symbol::T, Some(Symbol::S)) => Some(
                Instruction::EJUMP(Self::next_param_label(syms, pos)),
            ),
            (Symbol::T, Some(Symbol::T)) => Some(
                Instruction::NJUMP(Self::next_param_label(syms, pos)),
            ),
            (Symbol::T, Some(Symbol::L)) => Some(Instruction::RET),
            _ => None,
        }
    }

    /// Decodes the sub-opcode of an input/output instruction.
    fn next_io(syms: &Vec<Symbol>, pos: &mut usize) -> (r: Option<Instruction>)
        requires
            *old(pos) <= syms@.len(),
        ensures
            r == spec_next_io(syms@, *old(pos) as int).0,
            *final(pos) == spec_next_io(syms@, *old(pos) as int).1,
    {
        let a = read(syms, pos);
        let b = read(syms, pos);
        match (a, b) {
            (Some(Symbol::S), Some(Symbol::S)) => Some(Instruction::PRINTC),
            (Some(Symbol::S), Some(Symbol::T)) => Some(Instruction::PRINTN),
            (Some(Symbol::T), Some(Symbol::S)) => Some(Instruction::READC),
            (Some(Symbol::T), Some(Symbol::T)) => Some(Instruction::READN),
            _ => None,
        }
    }

    /// Reads a numeric literal: `S` and `T` append the binary digits 0 and 1
    /// until an `L` terminator, which is consumed, or the end of the stream
    /// ends the literal with whatever has accumulated.
    fn next_param_num(syms: &Vec<Symbol>, pos: &mut usize) -> (r: Number)
        requires
            *old(pos) <= syms@.len(),
        ensures
            r == spec_literal_num(spec_lit_bits(syms@, *old(pos) as int)),
            *final(pos) == spec_lit_next(syms@, *old(pos) as int),
    {
        let ghost start = *pos as int;
        let mut l: i32 = 0;
        let mut i: usize = *pos;
        while i < syms.len()
            invariant
                *pos == *old(pos),
                start == *old(pos) as int,
                start <= i as int <= syms@.len(),
                spec_lit_end(syms@, i as int) == spec_lit_end(syms@, start),
                l == spec_literal_num(syms@.subrange(start, i as int)),
            decreases syms@.len() - i,
        {
            let sym = syms[i];
            match sym {
                Symbol::L => {
                    proof {
                        assert(spec_lit_end(syms@, start) == i as int);
                        assert(spec_lit_bits(syms@, start) =~= syms@.subrange(start, i as int));
                    }
                    *pos = i + 1;
                    return l;
                },
                Symbol::S => {
                    l = l.wrapping_mul(2);
                },
                Symbol::T => {
                    l = l.wrapping_mul(2).wrapping_add(1);
                },
            }
            proof {
                assert(syms@.subrange(start, i as int + 1).drop_last() =~= syms@.subrange(
                    start,
                    i as int,
                ));
                assert(syms@.subrange(start, i as int + 1).last() == syms@[i as int]);
            }
            i = i + 1;
        }
        *pos = i;
        proof {
            assert(syms@.subrange(start, i as int) =~= spec_lit_bits(syms@, start));
        }
        l
    }

    /// Reads a label literal, exactly as `next_param_num` does but into a
    /// `usize` word.
    fn next_param_label(syms: &Vec<Symbol>, pos: &mut usize) -> (r: Label)
        requires
            *old(pos) <= syms@.len(),
        ensures
            r == spec_literal_label(spec_lit_bits(syms@, *old(pos) as int)),
            *final(pos) == spec_lit_next(syms@, *old(pos) as int),
    {
        let ghost start = *pos as int;
        let mut l: usize = 0;
        let mut i: usize = *pos;
        while i < syms.len()
            invariant
                *pos == *old(pos),
                start == *old(pos) as int,
                start <= i as int <= syms@.len(),
                spec_lit_end(syms@, i as int) == spec_lit_end(syms@, start),
                l == spec_literal_label(syms@.subrange(start, i as int)),
            decreases syms@.len() - i,
        {
            let sym = syms[i];
            match sym {
                Symbol::L => {
                    proof {
                        assert(spec_lit_end(syms@, start) == i as int);
                        assert(spec_lit_bits(syms@, start) =~= syms@.subrange(start, i as int));
                    }
                    *pos = i + 1;
                    return l;
                },
                Symbol::S => {
                    l = l.wrapping_mul(2);
                },
                Symbol::T => {
                    l = l.wrapping_mul(2).wrapping_add(1);
                },
            }
            proof {
                assert(syms@.subrange(start, i as int + 1).drop_last() =~= syms@.subrange(
                    start,
                    i as int,
                ));
                assert(syms@.subrange(start, i as int + 1).last() == syms@[i as int]);
            }
            i = i + 1;
        }
        *pos = i;
        proof {
            assert(syms@.subrange(start, i as int) =~= spec_lit_bits(syms@, start));
        }
        l
    }
}

} // verus!
