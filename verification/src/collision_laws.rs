//! No label is defined twice: the labels that the fragments of a program
//! define are all different, as long as the program's own names are.

use crate::arithmetic::{binary_comp, done_label, hit_label, jump_of, unary_comp};
use crate::assembly::{branch, Comp, Jump, Line};
use crate::branching::target;
use crate::execution::{address_of, resolves};
use crate::instruction::{frame_name, InstructionView};
use crate::label_laws::{
    lemma_comparison_labels_distinct, lemma_qualified_label_injective, lemma_return_labels_distinct,
};
use crate::linkage::{function_declaration, linkage, return_label};
use crate::linkage_laws::{args_of, locals_of};
use crate::memory::{mem_op_of, memory_access};
use crate::namespace_laws::{
    lemma_bootstrap_return_apart, lemma_comparison_and_return_labels_apart,
    lemma_function_names_apart, lemma_made_up_and_source_labels_apart, plain_function, plain_module,
};
use crate::resolution_laws::{
    distinct, labels_in, lemma_labels_concat, lemma_labels_push, lemma_resolvable, memory_size,
    symbols_of,
};
use crate::stack_laws::{
    lemma_pop_is_pop_listing, lemma_push_is_push_listing, offset_of, pop_listing, read_listing,
    segment_in,
};
use crate::templates::{
    bootstrap, bootstrap_return, call, call_frame, comparison, define_label, entry_point, hand_back,
    keep_frame, push_frame, reposition, restore_pointers, return_frame, zeros,
};
use crate::translate::{fragment, listed, listing, program_instructions, translated, translation};
use vstd::prelude::*;

verus! {

/// Whether a listing defines no label.
pub open spec fn unlabelled(code: Seq<Line>) -> bool {
    forall|k: int| 0 <= k < code.len() ==> !((#[trigger] code[k]) is Label)
}

/// A listing with one more line defines no label if the listing and the line define none.
pub broadcast proof fn lemma_unlabelled_push(code: Seq<Line>, line: Line)
    ensures
        #[trigger] unlabelled(code.push(line)) == (unlabelled(code) && !(line is Label)),
{
    if unlabelled(code.push(line)) {
        assert(code.push(line)[code.len() as int] == line);
        assert forall|k: int| 0 <= k < code.len() implies !((#[trigger] code[k]) is Label) by {
            assert(code.push(line)[k] == code[k]);
        }
    }
}

/// Two listings in a row define no label if neither defines one.
pub broadcast proof fn lemma_unlabelled_concat(a: Seq<Line>, b: Seq<Line>)
    ensures
        #[trigger] unlabelled(a + b) == (unlabelled(a) && unlabelled(b)),
{
    if unlabelled(a + b) {
        assert forall|k: int| 0 <= k < a.len() implies !((#[trigger] a[k]) is Label) by {
            assert((a + b)[k] == a[k]);
        }
        assert forall|k: int| 0 <= k < b.len() implies !((#[trigger] b[k]) is Label) by {
            assert((a + b)[a.len() + k] == b[k]);
        }
    }
}

/// The empty listing defines no label.
pub broadcast proof fn lemma_unlabelled_empty()
    ensures
        #[trigger] unlabelled(Seq::<Line>::empty()),
{
}

pub broadcast group group_unlabelled {
    lemma_unlabelled_push,
    lemma_unlabelled_concat,
    lemma_unlabelled_empty,
}

/// A listing without labels defines none.
pub proof fn lemma_no_labels(code: Seq<Line>)
    requires
        unlabelled(code),
    ensures
        labels_in(code) == Seq::<Seq<char>>::empty(),
    decreases code.len(),
{
    if code.len() > 0 {
        assert forall|k: int| 0 <= k < code.drop_last().len() implies !((
        #[trigger] code.drop_last()[k]) is Label) by {
            assert(code.drop_last()[k] == code[k]);
        }
        lemma_no_labels(code.drop_last());
        assert(!(code[code.len() - 1] is Label));
        assert(labels_in(code) =~= Seq::<Seq<char>>::empty());
    }
}

/// What is known of the mnemonics: how long each is, and how it starts.
pub proof fn lemma_mnemonics()
    ensures
        "push"@.len() == 4 && "push"@[0] == 'p' && "push"@[1] == 'u',
        "pop"@.len() == 3 && "pop"@[0] == 'p' && "pop"@[1] == 'o',
        "add"@.len() == 3 && "add"@[0] == 'a' && "add"@[1] == 'd',
        "sub"@.len() == 3 && "sub"@[0] == 's' && "sub"@[1] == 'u',
        "and"@.len() == 3 && "and"@[0] == 'a' && "and"@[1] == 'n',
        "or"@.len() == 2 && "or"@[0] == 'o' && "or"@[1] == 'r',
        "neg"@.len() == 3 && "neg"@[0] == 'n' && "neg"@[1] == 'e',
        "not"@.len() == 3 && "not"@[0] == 'n' && "not"@[1] == 'o',
        "eq"@.len() == 2 && "eq"@[0] == 'e' && "eq"@[1] == 'q',
        "gt"@.len() == 2 && "gt"@[0] == 'g' && "gt"@[1] == 't',
        "lt"@.len() == 2 && "lt"@[0] == 'l' && "lt"@[1] == 't',
        "label"@.len() == 5 && "label"@[0] == 'l' && "label"@[1] == 'a',
        "goto"@.len() == 4 && "goto"@[0] == 'g' && "goto"@[1] == 'o',
        "if-goto"@.len() == 7 && "if-goto"@[0] == 'i' && "if-goto"@[1] == 'f',
        "function"@.len() == 8 && "function"@[0] == 'f' && "function"@[1] == 'u',
        "call"@.len() == 4 && "call"@[0] == 'c' && "call"@[1] == 'a',
        "return"@.len() == 6 && "return"@[0] == 'r' && "return"@[1] == 'e',
{
    reveal_strlit("push");
    reveal_strlit("pop");
    reveal_strlit("add");
    reveal_strlit("sub");
    reveal_strlit("and");
    reveal_strlit("or");
    reveal_strlit("neg");
    reveal_strlit("not");
    reveal_strlit("eq");
    reveal_strlit("gt");
    reveal_strlit("lt");
    reveal_strlit("label");
    reveal_strlit("goto");
    reveal_strlit("if-goto");
    reveal_strlit("function");
    reveal_strlit("call");
    reveal_strlit("return");
}

/// The labels that the fragment of an instruction defines: two for a
/// comparison, one for a label, a function and a call, none for the others
/// and for an instruction that has no fragment.
pub open spec fn defined_by(i: InstructionView) -> Seq<Seq<char>> {
    if fragment(i) is Err {
        Seq::empty()
    } else if jump_of(i.operation) is Some {
        Seq::empty().push(hit_label(i.module, i.index)).push(done_label(i.module, i.index))
    } else if i.operation == "label"@ {
        Seq::empty().push(target(i))
    } else if i.operation == "function"@ {
        Seq::empty().push(i.arg1->0)
    } else if i.operation == "call"@ {
        Seq::empty().push(return_label(i.module, i.frame, i.index))
    } else {
        Seq::empty()
    }
}

/// Opening local cells defines no label.
pub proof fn lemma_zeros_unlabelled(count: nat)
    ensures
        unlabelled(zeros(count)),
    decreases count,
{
    broadcast use group_unlabelled;

    if count > 0 {
        lemma_zeros_unlabelled((count - 1) as nat);
    }
}

/// The listings for memory access define no label.
pub proof fn lemma_memory_access_unlabelled(i: InstructionView)
    requires
        memory_access(i) is Ok,
    ensures
        unlabelled(memory_access(i)->Ok_0),
{
    broadcast use group_unlabelled;

    lemma_mnemonics();
    if i.operation == "push"@ {
        lemma_push_is_push_listing(i);
        assert(unlabelled(read_listing(segment_in(i), offset_of(i), i.module)));
    } else {
        lemma_pop_is_pop_listing(i);
        assert(unlabelled(pop_listing(segment_in(i), offset_of(i), i.module)));
    }
}

/// The straight parts of a call and of a return define no label.
pub proof fn lemma_frames_unlabelled(name: Seq<char>, args: nat, back: Seq<char>)
    ensures
        unlabelled(call_frame(name, args, back)),
        unlabelled(return_frame()),
{
    broadcast use group_unlabelled;

    assert(unlabelled(push_frame(back)));
    assert(unlabelled(reposition(args)));
    assert(unlabelled(keep_frame()));
    assert(unlabelled(hand_back()));
    assert(unlabelled(restore_pointers()));
}

/// The labels that the listing of an instruction defines.
#[verifier::rlimit(40)]
pub proof fn lemma_labels_of_translation(i: InstructionView)
    requires
        translation(i) is Ok,
    ensures
        labels_in(translation(i)->Ok_0) == defined_by(i),
{
    broadcast use group_unlabelled;

    lemma_mnemonics();
    let code = translation(i)->Ok_0;
    if mem_op_of(i.operation) is Some {
        lemma_memory_access_unlabelled(i);
        lemma_no_labels(code);
    } else if binary_comp(i.operation) is Some {
        assert(unlabelled(code));
        lemma_no_labels(code);
    } else if unary_comp(i.operation) is Some {
        assert(unlabelled(code));
        lemma_no_labels(code);
    } else if jump_of(i.operation) is Some {
        let jump = jump_of(i.operation)->0;
        let hit = hit_label(i.module, i.index);
        let done = done_label(i.module, i.index);
        lemma_labels_of_comparison(jump, hit, done);
    } else if i.operation == "label"@ {
        lemma_labels_push(Seq::empty(), Line::Label(target(i)));
        assert(labels_in(code) =~= defined_by(i));
    } else if i.operation == "goto"@ || i.operation == "if-goto"@ {
        assert(unlabelled(code));
        lemma_no_labels(code);
    } else if i.operation == "function"@ {
        let name = i.arg1->0;
        let locals = locals_of(i);
        lemma_zeros_unlabelled(locals);
        lemma_no_labels(zeros(locals));
        lemma_labels_push(Seq::empty(), Line::Label(name));
        lemma_labels_concat(define_label(name), zeros(locals));
        assert(labels_in(code) =~= defined_by(i));
    } else if i.operation == "call"@ {
        let name = i.arg1->0;
        let args = args_of(i);
        let back = return_label(i.module, i.frame, i.index);
        lemma_labels_of_call(name, args, back);
    } else {
        lemma_frames_unlabelled(Seq::empty(), 0, Seq::empty());
        assert(unlabelled(code));
        lemma_no_labels(code);
    }
}

/// A call defines its return label and no other.
pub proof fn lemma_labels_of_call(name: Seq<char>, args: nat, back: Seq<char>)
    ensures
        labels_in(call(name, args, back)) == Seq::<Seq<char>>::empty().push(back),
{
    broadcast use group_unlabelled;

    let frame = call_frame(name, args, back);
    let jumped = frame.push(branch(Comp::Zero, Jump::Jmp));
    lemma_frames_unlabelled(name, args, back);
    assert(unlabelled(jumped));
    lemma_no_labels(jumped);
    lemma_labels_push(jumped, Line::Label(back));
    assert(labels_in(call(name, args, back)) =~= Seq::<Seq<char>>::empty().push(back));
}

/// A comparison defines its two labels and no other.
#[verifier::rlimit(40)]
pub proof fn lemma_labels_of_comparison(
    jump: Jump,
    hit: Seq<char>,
    done: Seq<char>,
)
    ensures
        labels_in(comparison(jump, hit, done)) == Seq::<Seq<char>>::empty().push(hit).push(done),
{
    broadcast use group_unlabelled;

    let whole = comparison(jump, hit, done);
    let n = whole.len() as int;
    let first = whole.subrange(0, 12);
    let second = whole.subrange(13, 16);
    assert(n == 17);
    assert(whole[12] == Line::Label(hit));
    assert(whole[16] == Line::Label(done));
    assert(whole =~= first.push(Line::Label(hit)) + second.push(Line::Label(done)));
    assert(unlabelled(first)) by {
        assert forall|k: int| 0 <= k < first.len() implies !((#[trigger] first[k]) is Label) by {
            assert(first[k] == whole[k]);
        }
    }
    assert(unlabelled(second)) by {
        assert forall|k: int| 0 <= k < second.len() implies !((#[trigger] second[k]) is Label) by {
            assert(second[k] == whole[k + 13]);
        }
    }
    lemma_no_labels(first);
    lemma_no_labels(second);
    lemma_labels_push(first, Line::Label(hit));
    lemma_labels_push(second, Line::Label(done));
    lemma_labels_concat(first.push(Line::Label(hit)), second.push(Line::Label(done)));
    assert(labels_in(whole) =~= Seq::<Seq<char>>::empty().push(hit).push(done));
}

/// The labels that the fragment of an instruction defines are those of its listing.
pub proof fn lemma_labels_of_fragment(i: InstructionView)
    ensures
        labels_in(listed(i)) == defined_by(i),
{
    if fragment(i) is Ok {
        let code = translation(i)->Ok_0;
        lemma_labels_of_translation(i);
        let start = Seq::<Line>::empty().push(Line::Comment(i.raw));
        lemma_labels_push(Seq::empty(), Line::Comment(i.raw));
        lemma_labels_concat(start, code);
        lemma_labels_push(start + code, Line::Blank);
        assert(labels_in(listed(i)) =~= defined_by(i));
    }
}

/// Whether the names in an instruction are plain: its module's name, the
/// name of its frame, and the name of the function it opens, if it opens one.
pub open spec fn well_named(i: InstructionView) -> bool {
    &&& plain_module(i.module)
    &&& plain_function(frame_name(i.frame))
    &&& i.operation == "function"@ && i.arg1 is Some ==> plain_function(i.arg1->0)
}

/// Whether two instructions of a program are kept apart by the program's
/// own names: they differ in their module or in their position; if both
/// open a function, the functions have different names; and if both define
/// a label in the same frame of the same module, the labels have different
/// texts.
pub open spec fn apart(a: InstructionView, b: InstructionView) -> bool {
    &&& a.module != b.module || a.index != b.index
    &&& a.operation == "function"@ && b.operation == "function"@ ==> a.arg1 != b.arg1
    &&& a.operation == "label"@ && b.operation == "label"@ && a.module == b.module && frame_name(
        a.frame,
    ) == frame_name(b.frame) ==> a.arg1 != b.arg1
}

/// Whether the names of a program are plain and keep its instructions apart.
pub open spec fn well_formed(instructions: Seq<InstructionView>) -> bool {
    &&& forall|j: int| 0 <= j < instructions.len() ==> well_named(#[trigger] instructions[j])
    &&& forall|j: int, k: int|
        0 <= j < k < instructions.len() ==> apart(
            #[trigger] instructions[j],
            #[trigger] instructions[k],
        )
}

/// The labels that the fragments of a run of instructions define, in order.
pub open spec fn all_defined(instructions: Seq<InstructionView>) -> Seq<Seq<char>>
    decreases instructions.len(),
{
    if instructions.len() == 0 {
        Seq::empty()
    } else {
        all_defined(instructions.drop_last()) + defined_by(instructions.last())
    }
}

/// What an instruction defines, by the kind of the instruction.
proof fn lemma_defined_by(i: InstructionView)
    ensures
        defined_by(i).len() <= 2,
        defined_by(i).len() == 2 ==> defined_by(i)[0] == hit_label(i.module, i.index)
            && defined_by(i)[1] == done_label(i.module, i.index),
        defined_by(i).len() == 1 ==> {
            ||| i.operation == "label"@ && i.arg1 is Some && defined_by(i)[0] == target(i)
            ||| defined_by(i)[0] == return_label(i.module, i.frame, i.index)
            ||| i.operation == "function"@ && i.arg1 is Some && defined_by(i)[0] == i.arg1->0
        },
{
    lemma_mnemonics();
    if fragment(i) is Ok && i.operation == "function"@ {
        assert(translation(i) == linkage(i));
        assert(linkage(i) == function_declaration(i));
    }
}

/// The two labels of a comparison differ.
pub proof fn lemma_defined_distinct(i: InstructionView)
    ensures
        distinct(defined_by(i)),
{
    lemma_defined_by(i);
    lemma_comparison_labels_distinct(i.module, i.index, i.module, i.index);
}

/// One label of one instruction is not one label of another.
#[verifier::rlimit(40)]
proof fn lemma_one_apart(a: InstructionView, b: InstructionView, x: Seq<char>, y: Seq<char>)
    requires
        well_named(a),
        well_named(b),
        apart(a, b),
        x == hit_label(a.module, a.index) || x == done_label(a.module, a.index) || x
            == return_label(a.module, a.frame, a.index) || (a.operation == "label"@ && a.arg1 is Some
            && x == target(a)) || (a.operation == "function"@ && a.arg1 is Some && x == a.arg1->0),
        y == hit_label(b.module, b.index) || y == done_label(b.module, b.index) || y
            == return_label(b.module, b.frame, b.index) || (b.operation == "label"@ && b.arg1 is Some
            && y == target(b)) || (b.operation == "function"@ && b.arg1 is Some && y == b.arg1->0),
    ensures
        x != y,
{
    lemma_mnemonics();
    lemma_comparison_labels_distinct(a.module, a.index, b.module, b.index);
    lemma_comparison_labels_distinct(b.module, b.index, a.module, a.index);
    lemma_comparison_and_return_labels_apart(a.module, a.index, b.module, b.frame, b.index);
    lemma_comparison_and_return_labels_apart(b.module, b.index, a.module, a.frame, a.index);
    lemma_return_labels_distinct(a.module, a.frame, a.index, b.module, b.frame, b.index);
    if a.arg1 is Some {
        lemma_made_up_and_source_labels_apart(
            b.module,
            b.frame,
            b.index,
            a.module,
            a.frame,
            a.arg1->0,
        );
        if a.operation == "function"@ {
            lemma_function_names_apart(
                a.arg1->0,
                b.module,
                b.frame,
                if b.arg1 is Some {
                    b.arg1->0
                } else {
                    Seq::empty()
                },
                b.index,
            );
        }
    }
    if b.arg1 is Some {
        lemma_made_up_and_source_labels_apart(
            a.module,
            a.frame,
            a.index,
            b.module,
            b.frame,
            b.arg1->0,
        );
        if b.operation == "function"@ {
            lemma_function_names_apart(
                b.arg1->0,
                a.module,
                a.frame,
                if a.arg1 is Some {
                    a.arg1->0
                } else {
                    Seq::empty()
                },
                a.index,
            );
        }
    }
    if a.arg1 is Some && b.arg1 is Some && a.operation == "label"@ && b.operation == "label"@
        && target(a) == target(b) {
        lemma_qualified_label_injective(
            a.module,
            a.frame,
            a.arg1->0,
            b.module,
            b.frame,
            b.arg1->0,
        );
    }
}

/// The labels that two instructions define are all different, where the
/// instructions are well named and kept apart.
pub proof fn lemma_defined_apart(a: InstructionView, b: InstructionView)
    requires
        well_named(a),
        well_named(b),
        apart(a, b),
    ensures
        forall|x: int, y: int|
            0 <= x < defined_by(a).len() && 0 <= y < defined_by(b).len() ==> defined_by(a)[x]
                != defined_by(b)[y],
{
    lemma_defined_by(a);
    lemma_defined_by(b);
    lemma_mnemonics();
    assert forall|x: int, y: int|
        0 <= x < defined_by(a).len() && 0 <= y < defined_by(b).len() implies defined_by(a)[x]
        != defined_by(b)[y] by {
        lemma_one_apart(a, b, defined_by(a)[x], defined_by(b)[y]);
    }
}

/// Every label that a run of instructions defines is defined by one of them.
pub proof fn lemma_defined_somewhere(instructions: Seq<InstructionView>, x: int) -> (r: (int, int))
    requires
        0 <= x < all_defined(instructions).len(),
    ensures
        0 <= r.0 < instructions.len(),
        0 <= r.1 < defined_by(instructions[r.0]).len(),
        all_defined(instructions)[x] == defined_by(instructions[r.0])[r.1],
    decreases instructions.len(),
{
    let before = all_defined(instructions.drop_last());
    if x < before.len() {
        let r = lemma_defined_somewhere(instructions.drop_last(), x);
        assert(instructions.drop_last()[r.0] == instructions[r.0]);
        r
    } else {
        (instructions.len() - 1, x - before.len())
    }
}

/// Leaving out the last instruction of a well formed program leaves a well formed program.
proof fn lemma_well_formed_shorter(instructions: Seq<InstructionView>)
    requires
        well_formed(instructions),
        instructions.len() > 0,
    ensures
        well_formed(instructions.drop_last()),
{
    let shorter = instructions.drop_last();
    assert forall|j: int| 0 <= j < shorter.len() implies well_named(#[trigger] shorter[j]) by {
        assert(shorter[j] == instructions[j]);
    }
    assert forall|j: int, k: int| 0 <= j < k < shorter.len() implies apart(
        #[trigger] shorter[j],
        #[trigger] shorter[k],
    ) by {
        assert(shorter[j] == instructions[j]);
        assert(shorter[k] == instructions[k]);
    }
}

/// The labels that the fragments of a well formed program define are all
/// different, and none of them is the return label of the bootstrap.
#[verifier::rlimit(40)]
pub proof fn lemma_all_defined_distinct(instructions: Seq<InstructionView>)
    requires
        well_formed(instructions),
    ensures
        distinct(all_defined(instructions)),
        !all_defined(instructions).contains(bootstrap_return()),
    decreases instructions.len(),
{
    if instructions.len() > 0 {
        let shorter = instructions.drop_last();
        let last = instructions.last();
        let before = all_defined(shorter);
        let these = defined_by(last);
        let all = all_defined(instructions);
        lemma_well_formed_shorter(instructions);
        lemma_all_defined_distinct(shorter);
        lemma_defined_distinct(last);
        assert forall|a: int, b: int| 0 <= a < b < all.len() implies all[a] != all[b] by {
            if b < before.len() {
                assert(all[a] == before[a] && all[b] == before[b]);
            } else if a >= before.len() {
                assert(all[a] == these[a - before.len()] && all[b] == these[b - before.len()]);
            } else {
                let r = lemma_defined_somewhere(shorter, a);
                assert(shorter[r.0] == instructions[r.0]);
                assert(apart(instructions[r.0], instructions[instructions.len() - 1]));
                lemma_defined_apart(instructions[r.0], last);
                assert(all[b] == these[b - before.len()]);
            }
        }
        assert forall|a: int| 0 <= a < all.len() implies all[a] != bootstrap_return() by {
            if a < before.len() {
                assert(all[a] == before[a]);
                assert(before.contains(before[a]));
            } else {
                let y = a - before.len();
                assert(all[a] == these[y]);
                lemma_defined_by(last);
                lemma_bootstrap_return_apart(
                    last.module,
                    last.frame,
                    if last.arg1 is Some {
                        last.arg1->0
                    } else {
                        Seq::empty()
                    },
                    last.index,
                );
                if last.operation == "function"@ && last.arg1 is Some {
                    lemma_function_names_apart(
                        last.arg1->0,
                        last.module,
                        last.frame,
                        Seq::empty(),
                        last.index,
                    );
                }
            }
        }
    }
}

/// The labels of the fragments of a run of instructions are the labels that
/// the instructions define.
pub proof fn lemma_labels_of_listing(instructions: Seq<InstructionView>)
    ensures
        labels_in(listing(instructions)) == all_defined(instructions),
    decreases instructions.len(),
{
    if instructions.len() > 0 {
        lemma_labels_of_listing(instructions.drop_last());
        lemma_labels_of_fragment(instructions.last());
        lemma_labels_concat(listing(instructions.drop_last()), listed(instructions.last()));
    }
}

/// The bootstrap defines its return label and no other.
pub proof fn lemma_labels_of_bootstrap()
    ensures
        labels_in(bootstrap()) == Seq::<Seq<char>>::empty().push(bootstrap_return()),
{
    broadcast use group_unlabelled;

    let calling = call(entry_point(), 0, bootstrap_return());
    let start = bootstrap().subrange(0, 5);
    assert(bootstrap() =~= (start + calling).push(Line::Blank));
    assert(unlabelled(start)) by {
        assert forall|k: int| 0 <= k < start.len() implies !((#[trigger] start[k]) is Label) by {
            assert(start[k] == bootstrap()[k]);
        }
    }
    lemma_no_labels(start);
    lemma_labels_of_call(entry_point(), 0, bootstrap_return());
    lemma_labels_concat(start, calling);
    lemma_labels_push(start + calling, Line::Blank);
    assert(labels_in(bootstrap()) =~= Seq::<Seq<char>>::empty().push(bootstrap_return()));
}

/// No label is defined twice in the output for a well formed program.
pub proof fn lemma_no_label_twice(instructions: Seq<InstructionView>)
    requires
        well_formed(instructions),
    ensures
        distinct(labels_in(bootstrap() + listing(instructions))),
{
    let labels = labels_in(bootstrap() + listing(instructions));
    let defined = all_defined(instructions);
    lemma_labels_of_bootstrap();
    lemma_labels_of_listing(instructions);
    lemma_labels_concat(bootstrap(), listing(instructions));
    lemma_all_defined_distinct(instructions);
    assert forall|a: int, b: int| 0 <= a < b < labels.len() implies labels[a] != labels[b] by {
        assert(labels[b] == defined[b - 1]);
        if a == 0 {
            assert(defined.contains(defined[b - 1]));
        } else {
            assert(labels[a] == defined[a - 1]);
        }
    }
}

/// The output for a well formed program that fits in instruction memory
/// can be assembled: there is a symbol table that gives every label of the
/// output the address of its line.
pub proof fn lemma_output_resolves(units: Seq<(Seq<char>, Seq<char>)>)
    requires
        translated(units) is Ok,
        well_formed(program_instructions(units)),
        address_of(translated(units)->Ok_0, translated(units)->Ok_0.len() as int) <= memory_size(),
    ensures
        resolves(translated(units)->Ok_0, symbols_of(translated(units)->Ok_0)),
{
    lemma_no_label_twice(program_instructions(units));
    lemma_resolvable(translated(units)->Ok_0);
}

/// Every instruction of a program is from one of its modules.
pub proof fn lemma_instruction_module(units: Seq<(Seq<char>, Seq<char>)>, j: int) -> (a: int)
    requires
        0 <= j < program_instructions(units).len(),
    ensures
        0 <= a < units.len(),
        program_instructions(units)[j].module == units[a].0,
    decreases units.len(),
{
    let before = program_instructions(units.drop_last());
    if j < before.len() {
        let a = lemma_instruction_module(units.drop_last(), j);
        assert(units.drop_last()[a] == units[a]);
        a
    } else {
        units.len() - 1
    }
}

/// Where the modules of a program have different names, two instructions
/// of the program differ in their module or in their position.
pub proof fn lemma_positions_apart(units: Seq<(Seq<char>, Seq<char>)>, j: int, k: int)
    requires
        forall|a: int, b: int| 0 <= a < b < units.len() ==> (#[trigger] units[a]).0 != (
        #[trigger] units[b]).0,
        0 <= j < k < program_instructions(units).len(),
    ensures
        program_instructions(units)[j].module != program_instructions(units)[k].module
            || program_instructions(units)[j].index != program_instructions(units)[k].index,
    decreases units.len(),
{
    let shorter = units.drop_last();
    let before = program_instructions(shorter);
    let all = program_instructions(units);
    if k < before.len() {
        assert forall|a: int, b: int| 0 <= a < b < shorter.len() implies (#[trigger] shorter[a]).0
            != (#[trigger] shorter[b]).0 by {
            assert(shorter[a] == units[a] && shorter[b] == units[b]);
        }
        lemma_positions_apart(shorter, j, k);
        assert(all[j] == before[j] && all[k] == before[k]);
    } else if j < before.len() {
        let a = lemma_instruction_module(shorter, j);
        assert(shorter[a] == units[a]);
        assert(all[j] == before[j]);
        assert(all[k].module == units[units.len() - 1].0);
    } else {
        assert(all[j].index == j - before.len());
        assert(all[k].index == k - before.len());
    }
}

} // verus!
