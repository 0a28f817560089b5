//! A model of the target machine, as far as straight-line code goes: two
//! registers, a memory of 16-bit cells, and what each line of assembly does
//! to them when no jump is taken.

use crate::assembly::{register_address, Comp, Dest, Line, Operand};
use vstd::prelude::*;

verus! {

/// The state of the machine between two instructions.
pub struct Machine {
    /// The address register.
    pub a: u16,
    /// The data register.
    pub d: u16,
    /// The memory: what each cell holds.
    pub ram: Map<u16, u16>,
}

/// The addresses that the assembler gives to labels and variables.
pub type Symbols = Map<Seq<char>, u16>;

/// The 16-bit word that an integer is cut down to.
pub open spec fn wrap(x: int) -> u16 {
    (x % 0x10000) as u16
}

/// What an address instruction loads into `A`. A number above 32767 cannot
/// be written in one; the model gives it its low 16 bits.
pub open spec fn operand_value(o: Operand, symbols: Symbols) -> u16 {
    match o {
        Operand::Number(n) => wrap(n as int),
        Operand::Register(r) => wrap(register_address(r) as int),
        Operand::Symbol(name) => symbols[name],
    }
}

/// What the arithmetic unit computes in state `m`; `M` is the cell that `A` addresses.
pub open spec fn comp_value(c: Comp, m: Machine) -> u16 {
    let a = m.a;
    let d = m.d;
    let cell = m.ram[m.a];
    match c {
        Comp::Zero => 0,
        Comp::One => 1,
        Comp::MinusOne => 0xffff,
        Comp::D => d,
        Comp::A => a,
        Comp::M => cell,
        Comp::NotD => !d,
        Comp::NotA => !a,
        Comp::NotM => !cell,
        Comp::NegD => wrap(-d),
        Comp::NegA => wrap(-a),
        Comp::NegM => wrap(-cell),
        Comp::DPlusOne => wrap(d + 1),
        Comp::APlusOne => wrap(a + 1),
        Comp::MPlusOne => wrap(cell + 1),
        Comp::DMinusOne => wrap(d - 1),
        Comp::AMinusOne => wrap(a - 1),
        Comp::MMinusOne => wrap(cell - 1),
        Comp::DPlusA => wrap(d + a),
        Comp::DPlusM => wrap(d + cell),
        Comp::DMinusA => wrap(d - a),
        Comp::DMinusM => wrap(d - cell),
        Comp::AMinusD => wrap(a - d),
        Comp::MMinusD => wrap(cell - d),
        Comp::DAndA => d & a,
        Comp::DAndM => d & cell,
        Comp::DOrA => d | a,
        Comp::DOrM => d | cell,
        Comp::MPlusD => wrap(cell + d),
        Comp::MAndD => cell & d,
        Comp::MOrD => cell | d,
    }
}

/// Whether `dest` names the register `A`.
pub open spec fn writes_a(dest: Dest) -> bool {
    dest is A || dest is AM || dest is AD || dest is AMD
}

/// Whether `dest` names the register `D`.
pub open spec fn writes_d(dest: Dest) -> bool {
    dest is D || dest is MD || dest is AD || dest is AMD
}

/// Whether `dest` names the cell `M`.
pub open spec fn writes_m(dest: Dest) -> bool {
    dest is M || dest is MD || dest is AM || dest is AMD
}

/// Stores `value` where `dest` says; a store to `M` goes to the cell that
/// `A` addressed before the instruction.
pub open spec fn store(m: Machine, dest: Dest, value: u16) -> Machine {
    Machine {
        a: if writes_a(dest) {
            value
        } else {
            m.a
        },
        d: if writes_d(dest) {
            value
        } else {
            m.d
        },
        ram: if writes_m(dest) {
            m.ram.insert(m.a, value)
        } else {
            m.ram
        },
    }
}

/// Whether `line` can make the machine go on anywhere but at the next line.
pub open spec fn may_jump(line: Line) -> bool {
    line matches Line::Compute(_, _, jump) && !(jump is Null)
}

/// Whether the machine runs through `code` from its first line to its last.
pub open spec fn straight(code: Seq<Line>) -> bool {
    forall|k: int| 0 <= k < code.len() ==> !may_jump(#[trigger] code[k])
}

/// The state after `line`, taken that it does not jump. Comments, empty
/// lines and labels are no instructions and change nothing.
pub open spec fn step(m: Machine, line: Line, symbols: Symbols) -> Machine {
    match line {
        Line::Load(o) => Machine { a: operand_value(o, symbols), ..m },
        Line::Compute(dest, comp, _) => store(m, dest, comp_value(comp, m)),
        _ => m,
    }
}

/// The state after the lines of `code`, one after the other.
pub open spec fn run(m: Machine, code: Seq<Line>, symbols: Symbols) -> Machine
    decreases code.len(),
{
    if code.len() == 0 {
        m
    } else {
        step(run(m, code.drop_last(), symbols), code.last(), symbols)
    }
}

/// Running a listing with one more line is running the listing and then the line.
pub broadcast proof fn lemma_run_push(m: Machine, code: Seq<Line>, line: Line, symbols: Symbols)
    ensures
        #[trigger] run(m, code.push(line), symbols) == step(run(m, code, symbols), line, symbols),
{
    assert(code.push(line).drop_last() =~= code);
}

/// Running the empty listing changes nothing.
pub broadcast proof fn lemma_run_empty(m: Machine, symbols: Symbols)
    ensures
        #[trigger] run(m, Seq::empty(), symbols) == m,
{
}

/// Running two listings in a row is running the second from where the first ends.
pub broadcast proof fn lemma_run_concat(m: Machine, a: Seq<Line>, b: Seq<Line>, symbols: Symbols)
    ensures
        #[trigger] run(m, a + b, symbols) == run(run(m, a, symbols), b, symbols),
    decreases b.len(),
{
    if b.len() == 0 {
        assert(a + b =~= a);
    } else {
        lemma_run_concat(m, a, b.drop_last(), symbols);
        assert((a + b).drop_last() =~= a + b.drop_last());
    }
}

/// A listing with one more line runs straight if the listing does and the line cannot jump.
pub broadcast proof fn lemma_straight_push(code: Seq<Line>, line: Line)
    ensures
        #[trigger] straight(code.push(line)) == (straight(code) && !may_jump(line)),
{
    if straight(code.push(line)) {
        assert(code.push(line)[code.len() as int] == line);
        assert forall|k: int| 0 <= k < code.len() implies !may_jump(#[trigger] code[k]) by {
            assert(code.push(line)[k] == code[k]);
        }
    }
}

/// Two listings in a row run straight if both do.
pub broadcast proof fn lemma_straight_concat(a: Seq<Line>, b: Seq<Line>)
    ensures
        #[trigger] straight(a + b) == (straight(a) && straight(b)),
{
    if straight(a + b) {
        assert forall|k: int| 0 <= k < a.len() implies !may_jump(#[trigger] a[k]) by {
            assert((a + b)[k] == a[k]);
        }
        assert forall|k: int| 0 <= k < b.len() implies !may_jump(#[trigger] b[k]) by {
            assert((a + b)[a.len() + k] == b[k]);
        }
    }
}

pub broadcast group group_run {
    lemma_run_push,
    lemma_run_empty,
    lemma_run_concat,
    lemma_straight_push,
    lemma_straight_concat,
}

} // verus!
