//! What the generated code does where it jumps: comparisons and branches,
//! proved on the machine model with jumps.

use crate::arithmetic::{comparison_operation, done_label, hit_label, jump_of};
use crate::assembly::{assign, branch, load_symbol, Comp, Dest, Jump, Line};
use crate::branching::{branching, target};
use crate::execution::{
    jump_taken, landing, lemma_exec_straight, lemma_jump_to_label, lemma_reaches_next,
    lemma_reaches_trans, next, occurs, reaches, resolves, signed, State,
};
use crate::instruction::InstructionView;
use crate::machine::{group_run, run, straight, wrap, Machine, Symbols};
use crate::stack_laws::{lemma_pop_d, registers_end, stack_pointer};
use crate::templates::{comparison, jump_if, jump_to, pop_d, unary};
use vstd::prelude::*;

verus! {

/// The word that stands for a truth value: all ones for true, zero for false.
pub open spec fn truth(b: bool) -> u16 {
    if b {
        0xffff
    } else {
        0
    }
}

/// What a comparison finds of `lower`, pushed first, and `upper`, pushed
/// second. The two orders are read off the sign of the 16-bit difference.
pub open spec fn compares(operation: Seq<char>, lower: u16, upper: u16) -> bool {
    if operation == "eq"@ {
        lower == upper
    } else if operation == "gt"@ {
        signed(wrap(lower - upper)) > 0
    } else {
        signed(wrap(lower - upper)) < 0
    }
}

/// Where the difference of two numbers fits in a word, its sign tells which is greater.
pub proof fn lemma_difference_sign(lower: u16, upper: u16)
    requires
        -0x8000 <= signed(lower) - signed(upper) < 0x8000,
    ensures
        signed(wrap(lower - upper)) == signed(lower) - signed(upper),
{
}

/// A part of a fragment that does not jump is run from its first line to behind its last.
pub proof fn lemma_part_runs(
    code: Seq<Line>,
    fragment: Seq<Line>,
    k: int,
    a: int,
    b: int,
    part: Seq<Line>,
    m: Machine,
    symbols: Symbols,
)
    requires
        occurs(code, fragment, k),
        0 <= a <= b <= fragment.len(),
        fragment.subrange(a, b) == part,
        straight(part),
    ensures
        reaches(
            code,
            State { machine: m, at: k + a },
            State { machine: run(m, part, symbols), at: k + b },
            symbols,
        ),
{
    assert(code.subrange(k + a, k + b) =~= code.subrange(k, k + fragment.len()).subrange(a, b));
    lemma_exec_straight(code, k + a, (b - a) as nat, m, symbols);
}

/// The line at position `j` of a fragment that stands in `code` at `k`.
pub proof fn lemma_line_of(code: Seq<Line>, fragment: Seq<Line>, k: int, j: int)
    requires
        occurs(code, fragment, k),
        0 <= j < fragment.len(),
    ensures
        code[k + j] == fragment[j],
{
    assert(code.subrange(k, k + fragment.len())[j] == code[k + j]);
}

/// `goto` goes on behind the label it names.
pub proof fn lemma_goto(
    i: InstructionView,
    code: Seq<Line>,
    k: int,
    q: int,
    m: Machine,
    symbols: Symbols,
)
    requires
        i.operation == "goto"@,
        branching(i) is Ok,
        occurs(code, branching(i)->Ok_0, k),
        0 <= q < code.len(),
        code[q] == Line::Label(target(i)),
        resolves(code, symbols),
    ensures
        reaches(
            code,
            State { machine: m, at: k },
            State { machine: Machine { a: symbols[target(i)], ..m }, at: q + 1 },
            symbols,
        ),
{
    reveal_strlit("goto");
    reveal_strlit("label");
    let name = target(i);
    let fragment = jump_to(name);
    lemma_line_of(code, fragment, k, 0);
    lemma_line_of(code, fragment, k, 1);
    let s0 = State { machine: m, at: k };
    let loaded = Machine { a: symbols[name], ..m };
    let s1 = State { machine: loaded, at: k + 1 };
    let s2 = State { machine: loaded, at: landing(code, symbols[name] as nat) };
    let s3 = State { machine: loaded, at: q + 1 };
    assert(next(code, s0, symbols) == s1);
    assert(next(code, s1, symbols) == s2);
    lemma_reaches_next(code, s0, symbols);
    lemma_reaches_next(code, s1, symbols);
    lemma_jump_to_label(code, name, q, loaded, symbols);
    lemma_reaches_trans(code, s0, s1, s2, symbols);
    lemma_reaches_trans(code, s0, s2, s3, symbols);
}

/// `if-goto` takes the top of the stack off, and goes on behind the label it
/// names if what it took off is not zero, and behind itself if it is zero.
/// Only the stack pointer changes in memory.
#[verifier::rlimit(40)]
pub proof fn lemma_if_goto(
    i: InstructionView,
    code: Seq<Line>,
    k: int,
    q: int,
    m: Machine,
    symbols: Symbols,
)
    requires
        i.operation == "if-goto"@,
        branching(i) is Ok,
        occurs(code, branching(i)->Ok_0, k),
        0 <= q < code.len(),
        code[q] == Line::Label(target(i)),
        resolves(code, symbols),
        stack_pointer(m) >= registers_end() + 1,
    ensures
        ({
            let sp = stack_pointer(m);
            let top = m.ram[(sp - 1) as u16];
            let after = Machine {
                a: symbols[target(i)],
                d: top,
                ram: m.ram.insert(0, (sp - 1) as u16),
            };
            reaches(
                code,
                State { machine: m, at: k },
                State {
                    machine: after,
                    at: if top != 0 {
                        q + 1
                    } else {
                        k + branching(i)->Ok_0.len()
                    },
                },
                symbols,
            )
        }),
{
    broadcast use group_run;

    reveal_strlit("if-goto");
    reveal_strlit("goto");
    reveal_strlit("label");
    let name = target(i);
    let fragment = jump_if(name);
    let sp = stack_pointer(m);
    let top = m.ram[(sp - 1) as u16];
    let head = pop_d().push(load_symbol(name));
    assert(fragment.subrange(0, 4) =~= head);
    lemma_pop_d(m, symbols);
    lemma_part_runs(code, fragment, k, 0, 4, head, m, symbols);
    lemma_line_of(code, fragment, k, 4);
    let after = Machine { a: symbols[name], d: top, ram: m.ram.insert(0, (sp - 1) as u16) };
    assert(run(m, head, symbols) == after);
    let s0 = State { machine: m, at: k };
    let s1 = State { machine: after, at: k + 4 };
    lemma_reaches_next(code, s1, symbols);
    if top != 0 {
        let s2 = State { machine: after, at: landing(code, symbols[name] as nat) };
        assert(next(code, s1, symbols) == s2);
        lemma_jump_to_label(code, name, q, after, symbols);
        lemma_reaches_trans(code, s0, s1, s2, symbols);
        lemma_reaches_trans(code, s0, s2, State { machine: after, at: q + 1 }, symbols);
    } else {
        let s2 = State { machine: after, at: k + 5 };
        assert(next(code, s1, symbols) == s2);
        lemma_reaches_trans(code, s0, s1, s2, symbols);
    }
}

/// The first part of a comparison: the difference of the two operands is in
/// `D`, the address of the label for "true" in `A`, and the stack pointer
/// one lower.
proof fn lemma_comparison_head(hit: Seq<char>, m: Machine, symbols: Symbols)
    requires
        stack_pointer(m) >= registers_end() + 2,
    ensures
        ({
            let sp = stack_pointer(m);
            let head = pop_d().push(assign(Dest::A, Comp::AMinusOne)).push(
                assign(Dest::D, Comp::MMinusD),
            ).push(load_symbol(hit));
            &&& straight(head)
            &&& run(m, head, symbols) == Machine {
                a: symbols[hit],
                d: wrap(m.ram[(sp - 2) as u16] - m.ram[(sp - 1) as u16]),
                ram: m.ram.insert(0, (sp - 1) as u16),
            }
        }),
{
    broadcast use group_run;

    lemma_pop_d(m, symbols);
}

/// Writing a truth value over the top of the stack.
proof fn lemma_write_top(comp: Comp, m: Machine, symbols: Symbols)
    requires
        comp is Zero || comp is MinusOne,
        stack_pointer(m) >= registers_end() + 1,
    ensures
        straight(unary(comp)),
        run(m, unary(comp), symbols).ram == m.ram.insert(
            (stack_pointer(m) - 1) as u16,
            truth(comp is MinusOne),
        ),
{
    broadcast use group_run;

}

/// A comparison takes two cells off the stack and puts one on it: all ones
/// if the comparison holds of the lower and the upper operand, in this
/// order, and zero if not. The machine goes on behind the comparison, with
/// the stack pointer one lower and no other cell changed.
#[verifier::rlimit(40)]
pub proof fn lemma_comparison(
    i: InstructionView,
    code: Seq<Line>,
    k: int,
    m: Machine,
    symbols: Symbols,
)
    requires
        comparison_operation(i) is Ok,
        occurs(code, comparison_operation(i)->Ok_0, k),
        resolves(code, symbols),
        stack_pointer(m) >= registers_end() + 2,
    ensures
        ({
            let sp = stack_pointer(m);
            let lower = m.ram[(sp - 2) as u16];
            let upper = m.ram[(sp - 1) as u16];
            exists|end: Machine|
                {
                    &&& #[trigger] reaches(
                        code,
                        State { machine: m, at: k },
                        State { machine: end, at: k + comparison_operation(i)->Ok_0.len() },
                        symbols,
                    )
                    &&& end.ram == m.ram.insert(0, (sp - 1) as u16).insert(
                        (sp - 2) as u16,
                        truth(compares(i.operation, lower, upper)),
                    )
                }
        }),
{
    reveal_strlit("eq");
    reveal_strlit("gt");
    reveal_strlit("lt");
    let jump = jump_of(i.operation)->0;
    let hit = hit_label(i.module, i.index);
    let done = done_label(i.module, i.index);
    let fragment = comparison(jump, hit, done);
    let sp = stack_pointer(m);
    let lower = m.ram[(sp - 2) as u16];
    let upper = m.ram[(sp - 1) as u16];
    let difference = wrap(lower - upper);
    assert(jump_taken(jump, difference) == compares(i.operation, lower, upper));
    let head = pop_d().push(assign(Dest::A, Comp::AMinusOne)).push(
        assign(Dest::D, Comp::MMinusD),
    ).push(load_symbol(hit));
    assert(fragment.len() == 17);
    assert(fragment.subrange(0, 6) =~= head);
    assert(fragment[6] == branch(Comp::D, jump));
    assert(fragment[11] == branch(Comp::Zero, Jump::Jmp));
    assert(fragment[12] == Line::Label(hit));
    assert(fragment[16] == Line::Label(done));
    lemma_line_of(code, fragment, k, 6);
    lemma_line_of(code, fragment, k, 11);
    lemma_line_of(code, fragment, k, 12);
    lemma_line_of(code, fragment, k, 16);
    lemma_comparison_head(hit, m, symbols);
    lemma_part_runs(code, fragment, k, 0, 6, head, m, symbols);
    let compared = run(m, head, symbols);
    let s0 = State { machine: m, at: k };
    let s1 = State { machine: compared, at: k + 6 };
    lemma_reaches_next(code, s1, symbols);
    if jump_taken(jump, difference) {
        let s2 = State { machine: compared, at: landing(code, symbols[hit] as nat) };
        let s3 = State { machine: compared, at: k + 13 };
        assert(next(code, s1, symbols) == s2);
        lemma_jump_to_label(code, hit, k + 12, compared, symbols);
        assert(fragment.subrange(13, 16) =~= unary(Comp::MinusOne));
        lemma_write_top(Comp::MinusOne, compared, symbols);
        lemma_part_runs(code, fragment, k, 13, 16, unary(Comp::MinusOne), compared, symbols);
        let end = run(compared, unary(Comp::MinusOne), symbols);
        let s4 = State { machine: end, at: k + 16 };
        let s5 = State { machine: end, at: k + 17 };
        assert(next(code, s4, symbols) == s5);
        lemma_reaches_next(code, s4, symbols);
        lemma_reaches_trans(code, s0, s1, s2, symbols);
        lemma_reaches_trans(code, s0, s2, s3, symbols);
        lemma_reaches_trans(code, s0, s3, s4, symbols);
        lemma_reaches_trans(code, s0, s4, s5, symbols);
        assert(reaches(code, s0, State { machine: end, at: k + 17 }, symbols));
    } else {
        let s2 = State { machine: compared, at: k + 7 };
        assert(next(code, s1, symbols) == s2);
        let miss = unary(Comp::Zero).push(load_symbol(done));
        assert(fragment.subrange(7, 11) =~= miss);
        lemma_write_top(Comp::Zero, compared, symbols);
        assert(straight(miss) && run(compared, miss, symbols) == Machine {
            a: symbols[done],
            ..run(compared, unary(Comp::Zero), symbols)
        }) by {
            broadcast use group_run;

        }
        lemma_part_runs(code, fragment, k, 7, 11, miss, compared, symbols);
        let end = run(compared, miss, symbols);
        let s3 = State { machine: end, at: k + 11 };
        let s4 = State { machine: end, at: landing(code, symbols[done] as nat) };
        let s5 = State { machine: end, at: k + 17 };
        assert(next(code, s3, symbols) == s4);
        lemma_reaches_next(code, s3, symbols);
        lemma_jump_to_label(code, done, k + 16, end, symbols);
        lemma_reaches_trans(code, s0, s1, s2, symbols);
        lemma_reaches_trans(code, s0, s2, s3, symbols);
        lemma_reaches_trans(code, s0, s3, s4, symbols);
        lemma_reaches_trans(code, s0, s4, s5, symbols);
        assert(reaches(code, s0, State { machine: end, at: k + 17 }, symbols));
    }
}

} // verus!
