//! The machine model with jumps: a program is a listing, the machine stands
//! at one of its lines, and a jump leads to the line that the address in `A`
//! belongs to.
//!
//! Comments, empty lines and labels take no room in instruction memory. The
//! address of a line is the number of instructions before it, and the
//! assembler gives each label the address of the line it stands on.

use crate::assembly::{Jump, Line};
use crate::machine::{comp_value, may_jump, run, step, store, straight, Machine, Symbols};
use vstd::prelude::*;

verus! {

/// The machine at work: its registers and memory, and the position in the
/// listing of the line it runs next.
pub struct State {
    pub machine: Machine,
    pub at: int,
}

/// Whether a line is an instruction, which takes a place in instruction memory.
pub open spec fn is_instruction(line: Line) -> bool {
    line is Load || line is Compute
}

/// The address of the line at position `k`: the number of instructions before it.
pub open spec fn address_of(code: Seq<Line>, k: int) -> nat
    decreases k,
{
    if k <= 0 {
        0
    } else if k - 1 < code.len() && is_instruction(code[k - 1]) {
        address_of(code, k - 1) + 1
    } else {
        address_of(code, k - 1)
    }
}

/// Whether `symbols` gives every label of `code` the address of its line.
pub open spec fn resolves(code: Seq<Line>, symbols: Symbols) -> bool {
    forall|k: int|
        0 <= k < code.len() && (#[trigger] code[k]) is Label ==> symbols.dom().contains(
            code[k]->Label_0,
        ) && symbols[code[k]->Label_0] == address_of(code, k)
}

/// A word read as a signed number.
pub open spec fn signed(v: u16) -> int {
    if v < 0x8000 {
        v as int
    } else {
        v - 0x10000
    }
}

/// Whether `jump` jumps on the computed value `v`.
pub open spec fn jump_taken(jump: Jump, v: u16) -> bool {
    match jump {
        Jump::Null => false,
        Jump::Jgt => signed(v) > 0,
        Jump::Jeq => v == 0,
        Jump::Jge => signed(v) >= 0,
        Jump::Jlt => signed(v) < 0,
        Jump::Jne => v != 0,
        Jump::Jle => signed(v) <= 0,
        Jump::Jmp => true,
    }
}

/// Whether `k` is the first position of `code` that has the address `t`.
pub open spec fn lands(code: Seq<Line>, t: nat, k: int) -> bool {
    &&& 0 <= k <= code.len()
    &&& address_of(code, k) == t
    &&& k == 0 || is_instruction(code[k - 1])
}

/// Where a jump to the address `t` leads: the first position that has this address.
pub open spec fn landing(code: Seq<Line>, t: nat) -> int {
    choose|k: int| lands(code, t, k)
}

/// The state after the line that the machine stands at. Past the end of the
/// listing the machine stands still.
pub open spec fn next(code: Seq<Line>, s: State, symbols: Symbols) -> State {
    if 0 <= s.at < code.len() {
        match code[s.at] {
            Line::Compute(dest, comp, jump) => {
                let value = comp_value(comp, s.machine);
                State {
                    machine: store(s.machine, dest, value),
                    at: if jump_taken(jump, value) {
                        landing(code, s.machine.a as nat)
                    } else {
                        s.at + 1
                    },
                }
            },
            line => State { machine: step(s.machine, line, symbols), at: s.at + 1 },
        }
    } else {
        s
    }
}

/// The state after `n` lines.
pub open spec fn exec(code: Seq<Line>, s: State, n: nat, symbols: Symbols) -> State
    decreases n,
{
    if n == 0 {
        s
    } else {
        next(code, exec(code, s, (n - 1) as nat, symbols), symbols)
    }
}

/// Whether the machine gets from `from` to `to` in some number of lines.
pub open spec fn reaches(code: Seq<Line>, from: State, to: State, symbols: Symbols) -> bool {
    exists|n: nat| exec(code, from, n, symbols) == to
}

/// Whether `fragment` stands in `code` from position `k` on.
pub open spec fn occurs(code: Seq<Line>, fragment: Seq<Line>, k: int) -> bool {
    &&& 0 <= k
    &&& k + fragment.len() <= code.len()
    &&& code.subrange(k, k + fragment.len()) == fragment
}

/// Later lines have later addresses.
pub proof fn lemma_address_monotone(code: Seq<Line>, a: int, b: int)
    requires
        a <= b,
    ensures
        address_of(code, a) <= address_of(code, b),
    decreases b - a,
{
    if a < b {
        lemma_address_monotone(code, a, b - 1);
    }
}

/// The address of a line is at most its position.
pub proof fn lemma_address_bound(code: Seq<Line>, k: int)
    requires
        0 <= k,
    ensures
        address_of(code, k) <= k,
    decreases k,
{
    if k > 0 {
        lemma_address_bound(code, k - 1);
    }
}

/// At most one position is the first with a given address.
pub proof fn lemma_landing(code: Seq<Line>, t: nat, k: int)
    requires
        lands(code, t, k),
    ensures
        landing(code, t) == k,
{
    let l = landing(code, t);
    assert(lands(code, t, l));
    if l < k {
        lemma_address_monotone(code, l, k - 1);
    }
    if k < l {
        lemma_address_monotone(code, k, l - 1);
    }
}

/// A jump to the address of position `q` lands at or before `q`, with no
/// instruction in between.
pub proof fn lemma_landing_before(code: Seq<Line>, q: int)
    requires
        0 <= q <= code.len(),
    ensures
        lands(code, address_of(code, q), landing(code, address_of(code, q))),
        landing(code, address_of(code, q)) <= q,
        forall|j: int|
            landing(code, address_of(code, q)) <= j < q ==> !is_instruction(#[trigger] code[j]),
    decreases q,
{
    if q == 0 || is_instruction(code[q - 1]) {
        lemma_landing(code, address_of(code, q), q);
    } else {
        lemma_landing_before(code, q - 1);
    }
}

/// Running `a + b` lines is running `a` lines and then `b` lines.
pub proof fn lemma_exec_add(code: Seq<Line>, s: State, a: nat, b: nat, symbols: Symbols)
    ensures
        exec(code, s, a + b, symbols) == exec(code, exec(code, s, a, symbols), b, symbols),
    decreases b,
{
    if b > 0 {
        lemma_exec_add(code, s, a, (b - 1) as nat, symbols);
        assert((a + b - 1) as nat == a + (b - 1) as nat);
    }
}

/// The machine gets from a state to itself.
pub proof fn lemma_reaches_self(code: Seq<Line>, s: State, symbols: Symbols)
    ensures
        reaches(code, s, s, symbols),
{
    assert(exec(code, s, 0, symbols) == s);
}

/// The machine gets from a state to the state after one line.
pub proof fn lemma_reaches_next(code: Seq<Line>, s: State, symbols: Symbols)
    ensures
        reaches(code, s, next(code, s, symbols), symbols),
{
    assert(exec(code, s, 0, symbols) == s);
    assert(exec(code, s, 1, symbols) == next(code, s, symbols));
}

/// Where the machine gets from `a` to `b` and from `b` to `c`, it gets from `a` to `c`.
pub proof fn lemma_reaches_trans(
    code: Seq<Line>,
    a: State,
    b: State,
    c: State,
    symbols: Symbols,
)
    requires
        reaches(code, a, b, symbols),
        reaches(code, b, c, symbols),
    ensures
        reaches(code, a, c, symbols),
{
    let n1 = choose|n: nat| exec(code, a, n, symbols) == b;
    let n2 = choose|n: nat| exec(code, b, n, symbols) == c;
    lemma_exec_add(code, a, n1, n2, symbols);
}

/// Lines that do not jump are run one after the other.
pub proof fn lemma_exec_straight(
    code: Seq<Line>,
    k: int,
    count: nat,
    m: Machine,
    symbols: Symbols,
)
    requires
        0 <= k,
        k + count <= code.len(),
        straight(code.subrange(k, k + count)),
    ensures
        exec(code, State { machine: m, at: k }, count, symbols) == (State {
            machine: run(m, code.subrange(k, k + count), symbols),
            at: k + count,
        }),
    decreases count,
{
    if count == 0 {
        assert(code.subrange(k, k + count) =~= Seq::empty());
    } else {
        let shorter = code.subrange(k, k + count - 1);
        let whole = code.subrange(k, k + count);
        assert(whole.drop_last() =~= shorter);
        assert forall|j: int| 0 <= j < shorter.len() implies !may_jump(#[trigger] shorter[j]) by {
            assert(shorter[j] == whole[j]);
        }
        lemma_exec_straight(code, k, (count - 1) as nat, m, symbols);
        assert(whole.last() == code[k + count - 1]);
        assert(!may_jump(whole[count - 1]));
    }
}

/// Lines that are no instructions are passed over.
pub proof fn lemma_passes_over(code: Seq<Line>, p: int, q: int, m: Machine, symbols: Symbols)
    requires
        0 <= p <= q <= code.len(),
        forall|j: int| p <= j < q ==> !is_instruction(#[trigger] code[j]),
    ensures
        reaches(code, State { machine: m, at: p }, State { machine: m, at: q }, symbols),
    decreases q - p,
{
    if p == q {
        lemma_reaches_self(code, State { machine: m, at: p }, symbols);
    } else {
        lemma_passes_over(code, p, q - 1, m, symbols);
        let before = State { machine: m, at: q - 1 };
        assert(!is_instruction(code[q - 1]));
        assert(next(code, before, symbols) == State { machine: m, at: q });
        lemma_reaches_next(code, before, symbols);
        lemma_reaches_trans(
            code,
            State { machine: m, at: p },
            before,
            State { machine: m, at: q },
            symbols,
        );
    }
}

/// A jump to the address of a label goes on behind the label.
pub proof fn lemma_jump_to_label(
    code: Seq<Line>,
    name: Seq<char>,
    q: int,
    m: Machine,
    symbols: Symbols,
)
    requires
        0 <= q < code.len(),
        code[q] == Line::Label(name),
        resolves(code, symbols),
    ensures
        reaches(
            code,
            State { machine: m, at: landing(code, symbols[name] as nat) },
            State { machine: m, at: q + 1 },
            symbols,
        ),
{
    assert(code[q] is Label);
    assert(symbols[name] == address_of(code, q));
    lemma_landing_before(code, q);
    let p = landing(code, address_of(code, q));
    assert forall|j: int| p <= j < q + 1 implies !is_instruction(#[trigger] code[j]) by {}
    lemma_passes_over(code, p, q + 1, m, symbols);
}

} // verus!
