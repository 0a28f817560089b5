//! Laws about whole programs: what the instructions of a module look like,
//! and where the fragment of each instruction stands in the output.

use crate::assembly::Line;
use crate::execution::occurs;
use crate::instruction::{enclosing_frame, head, opens_function, InstructionView};
use crate::source::{clean_lines, lemma_clean_lines_trimmed};
use crate::templates::bootstrap;
use crate::text::{index_of, is_space, lemma_index_of};
use crate::translate::{
    diagnostics, fragment, listed, listing, module_instructions, parsed_module,
    program_instructions, reported, translated,
};
use vstd::prelude::*;

verus! {

/// A line that does not start with white space has a first word.
pub proof fn lemma_head_nonempty(line: Seq<char>)
    requires
        line.len() > 0,
        !is_space(line[0]),
    ensures
        head(line).len() > 0,
{
    lemma_index_of(line, ' ');
    if index_of(line, ' ') == 0 {
        assert(line[0] == ' ');
    }
}

/// The instructions of a module are its instruction lines, one for one and
/// in order: each knows its module, its line and its position, and has an
/// operation that is not empty.
pub proof fn lemma_module_instruction(name: Seq<char>, source: Seq<char>, k: int)
    requires
        0 <= k < clean_lines(source).len(),
    ensures
        module_instructions(name, source).len() == clean_lines(source).len(),
        ({
            let i = module_instructions(name, source)[k];
            &&& i.module == name
            &&& i.index == k
            &&& i.raw == clean_lines(source)[k]
            &&& i.operation.len() > 0
            &&& i.operation == head(i.raw)
        }),
{
    lemma_clean_lines_trimmed(source, k);
    lemma_head_nonempty(clean_lines(source)[k]);
}

/// Frames follow the source order of the module: an instruction that opens
/// a function stands in that function, the first instruction otherwise
/// stands outside every function, and every other instruction stands where
/// the instruction before it stands.
pub proof fn lemma_module_frame(name: Seq<char>, source: Seq<char>, k: int)
    requires
        0 <= k < clean_lines(source).len(),
    ensures
        ({
            let module = module_instructions(name, source);
            module[k].frame == if opens_function(module[k]) {
                module[k].arg1
            } else if k == 0 {
                None
            } else {
                module[k - 1].frame
            }
        }),
{
    let parsed = parsed_module(name, source);
    assert(enclosing_frame(parsed, -1) is None);
}

/// Joining three sequences gives the same whichever two are joined first.
pub proof fn lemma_join_three<A>(x: Seq<A>, y: Seq<A>, z: Seq<A>)
    ensures
        (x + y) + z == x + (y + z),
{
    assert((x + y) + z =~= x + (y + z));
}

/// Taking the last element off a join takes it off the second part.
pub proof fn lemma_join_drop_last<A>(x: Seq<A>, y: Seq<A>)
    requires
        y.len() > 0,
    ensures
        (x + y).drop_last() == x + y.drop_last(),
        (x + y).last() == y.last(),
        (x + y).len() > 0,
{
    assert((x + y).drop_last() =~= x + y.drop_last());
}

/// Joining the empty sequence changes nothing.
pub proof fn lemma_join_empty<A>(x: Seq<A>, y: Seq<A>)
    requires
        y.len() == 0,
    ensures
        x + y == x,
        y + x == x,
{
    assert(x + y =~= x);
    assert(y + x =~= x);
}

/// The listing of two runs of instructions in a row is their two listings in a row.
pub proof fn lemma_listing_concat(a: Seq<InstructionView>, b: Seq<InstructionView>)
    ensures
        listing(a + b) == listing(a) + listing(b),
    decreases b.len(),
{
    if b.len() == 0 {
        lemma_join_empty(a, b);
        lemma_join_empty(listing(a), listing(b));
    } else {
        lemma_listing_concat(a, b.drop_last());
        lemma_join_drop_last(a, b);
        lemma_join_three(listing(a), listing(b.drop_last()), listed(b.last()));
    }
}

/// The diagnostics of two runs of instructions in a row are their two lists in a row.
pub proof fn lemma_diagnostics_concat(a: Seq<InstructionView>, b: Seq<InstructionView>)
    ensures
        diagnostics(a + b) == diagnostics(a) + diagnostics(b),
    decreases b.len(),
{
    if b.len() == 0 {
        lemma_join_empty(a, b);
        lemma_join_empty(diagnostics(a), diagnostics(b));
    } else {
        lemma_diagnostics_concat(a, b.drop_last());
        lemma_join_drop_last(a, b);
        lemma_join_three(diagnostics(a), diagnostics(b.drop_last()), reported(b.last()));
    }
}

/// Where no diagnostic is reported, every instruction has a fragment.
pub proof fn lemma_no_diagnostics(instructions: Seq<InstructionView>, j: int)
    requires
        diagnostics(instructions).len() == 0,
        0 <= j < instructions.len(),
    ensures
        fragment(instructions[j]) is Ok,
    decreases instructions.len(),
{
    if j < instructions.len() - 1 {
        assert(instructions.drop_last()[j] == instructions[j]);
        lemma_no_diagnostics(instructions.drop_last(), j);
    }
}

/// Every instruction that cannot be translated is reported: where an
/// instruction has no fragment, there is a diagnostic.
pub proof fn lemma_every_failure_reported(instructions: Seq<InstructionView>, j: int)
    requires
        0 <= j < instructions.len(),
        fragment(instructions[j]) is Err,
    ensures
        diagnostics(instructions).contains(fragment(instructions[j])->Err_0),
    decreases instructions.len(),
{
    let d = fragment(instructions[j])->Err_0;
    let before = diagnostics(instructions.drop_last());
    let last = reported(instructions.last());
    if j < instructions.len() - 1 {
        assert(instructions.drop_last()[j] == instructions[j]);
        lemma_every_failure_reported(instructions.drop_last(), j);
        let at = choose|at: int| 0 <= at < before.len() && before[at] == d;
        assert((before + last)[at] == d);
    } else {
        assert((before + last)[before.len() as int] == d);
    }
}

/// Where the fragment of the instruction at position `j` starts in the
/// output: behind the bootstrap and the fragments of the instructions before it.
pub open spec fn fragment_start(instructions: Seq<InstructionView>, j: int) -> int {
    (bootstrap().len() + listing(instructions.take(j)).len()) as int
}

/// The fragments of the instructions from position `a` to position `b`
/// stand in the output one after the other, behind the bootstrap and the
/// fragments of the instructions before them.
pub proof fn lemma_fragments_occur(instructions: Seq<InstructionView>, a: int, b: int)
    requires
        0 <= a <= b <= instructions.len(),
    ensures
        occurs(
            bootstrap() + listing(instructions),
            listing(instructions.subrange(a, b)),
            fragment_start(instructions, a),
        ),
        occurs(bootstrap() + listing(instructions), bootstrap(), 0),
{
    let before = instructions.take(a);
    let these = instructions.subrange(a, b);
    let after = instructions.skip(b);
    assert(instructions =~= before + these + after);
    lemma_listing_concat(before + these, after);
    lemma_listing_concat(before, these);
    let code = bootstrap() + listing(instructions);
    let start = fragment_start(instructions, a);
    assert(code.subrange(start, start + listing(these).len()) =~= listing(these));
    assert(code.subrange(0, bootstrap().len() as int) =~= bootstrap());
}

/// The fragment of one instruction stands in the output behind the
/// bootstrap and the fragments of the instructions before it.
pub proof fn lemma_fragment_occurs(instructions: Seq<InstructionView>, j: int)
    requires
        0 <= j < instructions.len(),
    ensures
        occurs(
            bootstrap() + listing(instructions),
            listed(instructions[j]),
            fragment_start(instructions, j),
        ),
{
    lemma_fragments_occur(instructions, j, j + 1);
    let one = instructions.subrange(j, j + 1);
    assert(one.drop_last() =~= Seq::<InstructionView>::empty());
    assert(listing(one.drop_last()) =~= Seq::<Line>::empty());
    assert(listing(one) =~= listed(instructions[j]));
}

/// A translation succeeds if and only if no instruction of the program is
/// refused, and then its output is the bootstrap followed by the fragments
/// of all instructions; if it fails, it reports at least one diagnostic.
pub proof fn lemma_all_or_nothing(units: Seq<(Seq<char>, Seq<char>)>)
    ensures
        ({
            let instructions = program_instructions(units);
            &&& translated(units) is Ok <==> forall|j: int|
                0 <= j < instructions.len() ==> fragment(#[trigger] instructions[j]) is Ok
            &&& translated(units) is Ok ==> translated(units)->Ok_0 == bootstrap() + listing(
                instructions,
            )
            &&& translated(units) is Err ==> translated(units)->Err_0.len() > 0
        }),
{
    let instructions = program_instructions(units);
    if diagnostics(instructions).len() == 0 {
        assert forall|j: int| 0 <= j < instructions.len() implies fragment(
            #[trigger] instructions[j],
        ) is Ok by {
            lemma_no_diagnostics(instructions, j);
        }
    } else {
        if forall|j: int| 0 <= j < instructions.len() ==> fragment(#[trigger] instructions[j]) is Ok {
            lemma_all_translatable(instructions);
        }
    }
}

/// Where every instruction has a fragment, no diagnostic is reported.
pub proof fn lemma_all_translatable(instructions: Seq<InstructionView>)
    requires
        forall|j: int| 0 <= j < instructions.len() ==> fragment(#[trigger] instructions[j]) is Ok,
    ensures
        diagnostics(instructions).len() == 0,
    decreases instructions.len(),
{
    if instructions.len() > 0 {
        assert forall|j: int| 0 <= j < instructions.drop_last().len() implies fragment(
            #[trigger] instructions.drop_last()[j],
        ) is Ok by {
            assert(instructions.drop_last()[j] == instructions[j]);
        }
        lemma_all_translatable(instructions.drop_last());
        assert(fragment(instructions[instructions.len() - 1]) is Ok);
    }
}

} // verus!
