//! The laws put together for whole programs: in the output of a
//! translation, a call of a function that pushes a constant and returns
//! comes back with that constant, and two constants that are pushed and
//! combined leave the result on the stack.

use crate::arithmetic::{binary_comp, binary_operation};
use crate::assembly::Line;
use crate::collision_laws::{lemma_mnemonics, lemma_output_resolves, well_formed};
use crate::execution::{address_of, reaches, State};
use crate::instruction::{DiagnosticView, InstructionView};
use crate::linkage_laws::{args_of, frame_size, lemma_call_of_constant_function, locals_of};
use crate::machine::{
    group_run, lemma_run_concat, lemma_straight_concat, run, straight, Machine, Symbols,
};
use crate::memory::memory_access;
use crate::program_laws::{
    fragment_start, lemma_all_translatable, lemma_fragment_occurs, lemma_fragments_occur,
    lemma_join_empty, lemma_no_diagnostics,
};
use crate::resolution_laws::{memory_size, symbols_of};
use crate::stack_laws::{
    lemma_binary_operator, lemma_push, lemma_push_is_push_listing, offset_of, operator,
    registers_end, stack_pointer,
};
use crate::templates::bootstrap;
use crate::translate::{
    diagnostics, fragment, lemma_listing_push, listed, listing, program_instructions, translated,
    translation,
};
use vstd::prelude::*;

verus! {

/// The fragments of three instructions in a row.
pub proof fn lemma_listing_of_three(a: InstructionView, b: InstructionView, c: InstructionView)
    ensures
        listing(Seq::empty().push(a).push(b).push(c)) == listed(a) + listed(b) + listed(c),
{
    let none = Seq::<InstructionView>::empty();
    lemma_listing_push(none, a);
    lemma_listing_push(none.push(a), b);
    lemma_listing_push(none.push(a).push(b), c);
    lemma_join_empty(listed(a), listing(none));
}

/// In the output for a well formed program that fits in instruction
/// memory, assembled with the symbol table of the output: where the
/// instruction at position `j` calls a function, and the instructions at
/// the positions `q`, `q + 1` and `q + 2` open that function, push a
/// constant and return, the machine gets from the call to behind the call;
/// the stack pointer is then one above where the first argument was, the
/// cell below it holds the constant, and the caller's four segment
/// pointers and the cells of its stack below the arguments are what they
/// were before the call.
#[verifier::rlimit(40)]
pub proof fn lemma_round_trip_in_program(
    units: Seq<(Seq<char>, Seq<char>)>,
    j: int,
    q: int,
    m: Machine,
)
    requires
        translated(units) is Ok,
        well_formed(program_instructions(units)),
        address_of(translated(units)->Ok_0, translated(units)->Ok_0.len() as int) <= memory_size(),
        0 <= j < program_instructions(units).len(),
        0 <= q,
        q + 3 <= program_instructions(units).len(),
        program_instructions(units)[j].operation == "call"@,
        program_instructions(units)[q].operation == "function"@,
        program_instructions(units)[q].arg1 == program_instructions(units)[j].arg1,
        program_instructions(units)[q + 1].operation == "push"@,
        program_instructions(units)[q + 1].arg1 == Some("constant"@),
        program_instructions(units)[q + 2].operation == "return"@,
        stack_pointer(m) >= registers_end() + args_of(program_instructions(units)[j]),
        stack_pointer(m) + frame_size() + locals_of(program_instructions(units)[q]) + 1 < 0x10000,
    ensures
        ({
            let instructions = program_instructions(units);
            let code = translated(units)->Ok_0;
            let caller = instructions[j];
            let first = (stack_pointer(m) - args_of(caller)) as u16;
            exists|end: Machine|
                {
                    &&& #[trigger] reaches(
                        code,
                        State { machine: m, at: fragment_start(instructions, j) },
                        State {
                            machine: end,
                            at: fragment_start(instructions, j) + listed(caller).len(),
                        },
                        symbols_of(code),
                    )
                    &&& stack_pointer(end) == first + 1
                    &&& end.ram[first] == offset_of(instructions[q + 1])
                    &&& end.ram[1] == m.ram[1]
                    &&& end.ram[2] == m.ram[2]
                    &&& end.ram[3] == m.ram[3]
                    &&& end.ram[4] == m.ram[4]
                    &&& forall|c: u16| registers_end() <= c < first ==> end.ram[c] == m.ram[c]
                }
        }),
{
    let instructions = program_instructions(units);
    let code = translated(units)->Ok_0;
    let symbols = symbols_of(code);
    assert(diagnostics(instructions).len() == 0);
    lemma_no_diagnostics(instructions, j);
    lemma_no_diagnostics(instructions, q);
    lemma_no_diagnostics(instructions, q + 1);
    lemma_output_resolves(units);
    lemma_fragment_occurs(instructions, j);
    lemma_fragments_occur(instructions, q, q + 3);
    let callee = instructions.subrange(q, q + 3);
    assert(callee =~= Seq::empty().push(instructions[q]).push(instructions[q + 1]).push(
        instructions[q + 2],
    ));
    lemma_listing_of_three(instructions[q], instructions[q + 1], instructions[q + 2]);
    lemma_call_of_constant_function(
        instructions[j],
        instructions[q],
        instructions[q + 1],
        instructions[q + 2],
        code,
        fragment_start(instructions, j),
        fragment_start(instructions, q),
        m,
        symbols,
    );
}

/// The fragment of an instruction does to the machine what its listing
/// does: the comment before it and the empty line behind it do nothing.
pub proof fn lemma_listed_runs(i: InstructionView, m: Machine, symbols: Symbols)
    requires
        translation(i) is Ok,
    ensures
        run(m, listed(i), symbols) == run(m, translation(i)->Ok_0, symbols),
        straight(listed(i)) == straight(translation(i)->Ok_0),
{
    broadcast use group_run;

}

/// The fragments of two pushes of constants and of a binary operator, run
/// one after the other, leave one cell more on the stack than there was,
/// and it holds the operator applied to the first and the second
/// constant, in this order.
#[verifier::rlimit(40)]
pub proof fn lemma_fragments_operate_on_constants(
    first: InstructionView,
    second: InstructionView,
    operation: InstructionView,
    m: Machine,
    symbols: Symbols,
)
    requires
        first.operation == "push"@,
        first.arg1 == Some("constant"@),
        second.operation == "push"@,
        second.arg1 == Some("constant"@),
        memory_access(first) is Ok,
        memory_access(second) is Ok,
        binary_comp(operation.operation) is Some,
        stack_pointer(m) >= registers_end(),
        stack_pointer(m) + 2 < 0x10000,
    ensures
        ({
            let code = listed(first) + listed(second) + listed(operation);
            let end = run(m, code, symbols);
            &&& code == listing(Seq::empty().push(first).push(second).push(operation))
            &&& straight(code)
            &&& stack_pointer(end) == stack_pointer(m) + 1
            &&& end.ram[stack_pointer(m)] == operator(
                operation.operation,
                offset_of(first) as u16,
                offset_of(second) as u16,
            )
            &&& forall|c: u16| c != 0 && c != stack_pointer(m) && c != stack_pointer(m) + 1
                ==> end.ram[c] == m.ram[c]
        }),
{
    lemma_mnemonics();
    let one = memory_access(first)->Ok_0;
    let two = memory_access(second)->Ok_0;
    let three = binary_operation(operation)->Ok_0;
    assert(translation(first) == memory_access(first));
    assert(translation(second) == memory_access(second));
    assert(translation(operation) == binary_operation(operation));
    lemma_listing_of_three(first, second, operation);
    lemma_push(first, m, symbols);
    lemma_push_is_push_listing(first);
    lemma_push_is_push_listing(second);
    lemma_listed_runs(first, m, symbols);
    let m1 = run(m, listed(first), symbols);
    lemma_push(second, m1, symbols);
    lemma_listed_runs(second, m1, symbols);
    let m2 = run(m1, listed(second), symbols);
    lemma_binary_operator(operation, m2, symbols);
    lemma_listed_runs(operation, m2, symbols);
    lemma_run_concat(m, listed(first), listed(second), symbols);
    lemma_straight_concat(listed(first), listed(second));
    lemma_run_concat(m, listed(first) + listed(second), listed(operation), symbols);
    lemma_straight_concat(listed(first) + listed(second), listed(operation));
}

/// A program of three instructions, two pushes of constants and a binary
/// operator, translates to the bootstrap and three fragments; the
/// fragments, run in order, leave one cell more on the stack than there
/// was, and it holds the operator applied to the two constants.
#[verifier::rlimit(40)]
pub proof fn lemma_program_operates_on_constants(
    units: Seq<(Seq<char>, Seq<char>)>,
    m: Machine,
    symbols: Symbols,
)
    requires
        program_instructions(units).len() == 3,
        program_instructions(units)[0].operation == "push"@,
        program_instructions(units)[0].arg1 == Some("constant"@),
        program_instructions(units)[1].operation == "push"@,
        program_instructions(units)[1].arg1 == Some("constant"@),
        memory_access(program_instructions(units)[0]) is Ok,
        memory_access(program_instructions(units)[1]) is Ok,
        binary_comp(program_instructions(units)[2].operation) is Some,
        stack_pointer(m) >= registers_end(),
        stack_pointer(m) + 2 < 0x10000,
    ensures
        ({
            let instructions = program_instructions(units);
            let fragments = listing(instructions);
            let end = run(m, fragments, symbols);
            &&& translated(units) == Ok::<Seq<Line>, Seq<DiagnosticView>>(bootstrap() + fragments)
            &&& fragments == listed(instructions[0]) + listed(instructions[1]) + listed(
                instructions[2],
            )
            &&& straight(fragments)
            &&& stack_pointer(end) == stack_pointer(m) + 1
            &&& end.ram[stack_pointer(m)] == operator(
                instructions[2].operation,
                offset_of(instructions[0]) as u16,
                offset_of(instructions[1]) as u16,
            )
        }),
{
    lemma_mnemonics();
    let instructions = program_instructions(units);
    let first = instructions[0];
    let second = instructions[1];
    let operation = instructions[2];
    assert(instructions =~= Seq::empty().push(first).push(second).push(operation));
    lemma_fragments_operate_on_constants(first, second, operation, m, symbols);
    assert(translation(first) == memory_access(first));
    assert(translation(second) == memory_access(second));
    assert(translation(operation) == binary_operation(operation));
    assert forall|j: int| 0 <= j < instructions.len() implies fragment(
        #[trigger] instructions[j],
    ) is Ok by {
        assert(j == 0 || j == 1 || j == 2);
    }
    lemma_all_translatable(instructions);
}

} // verus!
