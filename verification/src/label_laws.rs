//! Laws about the names that the translator gives to places in the code:
//! which of them can never coincide.

use crate::arithmetic::{done_label, hit_label};
use crate::assembly::Line;
use crate::branching::{branching, qualified_label, target};
use crate::instruction::{frame_name, DiagnosticView, InstructionView};
use crate::linkage::return_label;
use crate::templates::{define_label, jump_if, jump_to};
use crate::text::{decimal, is_digit, lemma_decimal_digits, lemma_decimal_injective};
use vstd::prelude::*;

verus! {

/// Two texts that start alike and are equal as wholes end alike.
pub proof fn lemma_same_prefix(a: Seq<char>, x: Seq<char>, y: Seq<char>)
    requires
        a + x == a + y,
    ensures
        x == y,
{
    assert(x =~= (a + x).skip(a.len() as int));
    assert(y =~= (a + y).skip(a.len() as int));
}

/// Two texts that end alike and are equal as wholes start alike.
pub proof fn lemma_same_suffix(x: Seq<char>, y: Seq<char>, b: Seq<char>)
    requires
        x + b == y + b,
    ensures
        x == y,
{
    assert((x + b).len() == x.len() + b.len());
    assert((y + b).len() == y.len() + b.len());
    assert(x =~= (x + b).take(x.len() as int));
    assert(y =~= (y + b).take(y.len() as int));
}

/// A text is cut at the first `c` in one way only.
pub proof fn lemma_split_at_first(
    a1: Seq<char>,
    b1: Seq<char>,
    a2: Seq<char>,
    b2: Seq<char>,
    c: char,
)
    requires
        !a1.contains(c),
        !a2.contains(c),
        a1.push(c) + b1 == a2.push(c) + b2,
    ensures
        a1 == a2,
        b1 == b2,
{
    let t1 = a1.push(c) + b1;
    let t2 = a2.push(c) + b2;
    if a1.len() < a2.len() {
        assert(t1[a1.len() as int] == c);
        assert(t2[a1.len() as int] == a2[a1.len() as int]);
        assert(a2.contains(c));
    }
    if a2.len() < a1.len() {
        assert(t2[a2.len() as int] == c);
        assert(t1[a2.len() as int] == a1[a2.len() as int]);
        assert(a1.contains(c));
    }
    assert(a1 =~= t1.take(a1.len() as int));
    assert(a2 =~= t2.take(a2.len() as int));
    assert(b1 =~= t1.skip(a1.len() as int + 1));
    assert(b2 =~= t2.skip(a2.len() as int + 1));
}

/// A text that ends in a dot and a numeral is cut into the part up to the
/// dot and the number in one way only.
pub proof fn lemma_numbered(prefix1: Seq<char>, n1: nat, prefix2: Seq<char>, n2: nat)
    requires
        prefix1.len() > 0 && prefix1.last() == '.',
        prefix2.len() > 0 && prefix2.last() == '.',
        prefix1 + decimal(n1) == prefix2 + decimal(n2),
    ensures
        prefix1 == prefix2,
        n1 == n2,
{
    let d1 = decimal(n1);
    let d2 = decimal(n2);
    let t1 = prefix1 + d1;
    let t2 = prefix2 + d2;
    lemma_decimal_digits(n1);
    lemma_decimal_digits(n2);
    assert(t1.len() == prefix1.len() + d1.len());
    assert(t2.len() == prefix2.len() + d2.len());
    if d1.len() < d2.len() {
        let k = prefix1.len() - 1;
        assert(t1[k] == '.');
        assert(t2[k] == d2[k - prefix2.len()]);
        assert(is_digit(d2[k - prefix2.len()]));
    }
    if d2.len() < d1.len() {
        let k = prefix2.len() - 1;
        assert(t2[k] == '.');
        assert(t1[k] == d1[k - prefix1.len()]);
        assert(is_digit(d1[k - prefix1.len()]));
    }
    assert(prefix1 =~= t1.take(prefix1.len() as int));
    assert(prefix2 =~= t2.take(prefix2.len() as int));
    assert(d1 =~= t1.skip(prefix1.len() as int));
    assert(d2 =~= t2.skip(prefix2.len() as int));
    lemma_decimal_injective(n1, n2);
}

/// The labels of a comparison are its own: two comparisons that differ in
/// their module or in their position share none, and the two labels of one
/// comparison differ. In particular, comparisons at the same position of two
/// modules have different labels.
pub proof fn lemma_comparison_labels_distinct(
    module1: Seq<char>,
    index1: nat,
    module2: Seq<char>,
    index2: nat,
)
    ensures
        hit_label(module1, index1) != done_label(module2, index2),
        module1 != module2 || index1 != index2 ==> {
            &&& hit_label(module1, index1) != hit_label(module2, index2)
            &&& done_label(module1, index1) != done_label(module2, index2)
        },
{
    reveal_strlit("$true.");
    reveal_strlit("$done.");
    let t = "$true."@;
    let d = "$done."@;
    if hit_label(module1, index1) == done_label(module2, index2) {
        lemma_numbered(module1 + t, index1, module2 + d, index2);
        assert((module1 + t)[module1.len() as int + 1] == 't');
        assert((module2 + d)[module2.len() as int + 1] == 'd');
        assert((module1 + t).len() == module1.len() + 6);
        assert((module2 + d).len() == module2.len() + 6);
    }
    if hit_label(module1, index1) == hit_label(module2, index2) {
        lemma_numbered(module1 + t, index1, module2 + t, index2);
        lemma_same_suffix(module1, module2, t);
    }
    if done_label(module1, index1) == done_label(module2, index2) {
        lemma_numbered(module1 + d, index1, module2 + d, index2);
        lemma_same_suffix(module1, module2, d);
    }
}

/// The same label text in two frames of a module is two labels, as long as
/// the frames are written differently; in particular in two different
/// functions.
pub proof fn lemma_labels_scoped_by_frame(
    module: Seq<char>,
    frame1: Option<Seq<char>>,
    frame2: Option<Seq<char>>,
    label: Seq<char>,
)
    requires
        frame_name(frame1) != frame_name(frame2),
    ensures
        qualified_label(module, frame1, label) != qualified_label(module, frame2, label),
{
    let head = module + "."@;
    let tail = "$"@ + label;
    if qualified_label(module, frame1, label) == qualified_label(module, frame2, label) {
        assert(qualified_label(module, frame1, label) =~= head + (frame_name(frame1) + tail));
        assert(qualified_label(module, frame2, label) =~= head + (frame_name(frame2) + tail));
        lemma_same_prefix(head, frame_name(frame1) + tail, frame_name(frame2) + tail);
        lemma_same_suffix(frame_name(frame1), frame_name(frame2), tail);
    }
}

/// Where module names hold no dot and frame names no dollar sign, a
/// qualified label tells its module, its frame and its label text: two of
/// them are equal only if all three parts are.
pub proof fn lemma_qualified_label_injective(
    module1: Seq<char>,
    frame1: Option<Seq<char>>,
    label1: Seq<char>,
    module2: Seq<char>,
    frame2: Option<Seq<char>>,
    label2: Seq<char>,
)
    requires
        !module1.contains('.'),
        !module2.contains('.'),
        !frame_name(frame1).contains('$'),
        !frame_name(frame2).contains('$'),
        qualified_label(module1, frame1, label1) == qualified_label(module2, frame2, label2),
    ensures
        module1 == module2,
        frame_name(frame1) == frame_name(frame2),
        label1 == label2,
{
    reveal_strlit(".");
    reveal_strlit("$");
    let f1 = frame_name(frame1);
    let f2 = frame_name(frame2);
    let rest1 = f1.push('$') + label1;
    let rest2 = f2.push('$') + label2;
    assert("."@ =~= seq!['.']);
    assert("$"@ =~= seq!['$']);
    assert(qualified_label(module1, frame1, label1) =~= module1.push('.') + rest1);
    assert(qualified_label(module2, frame2, label2) =~= module2.push('.') + rest2);
    lemma_split_at_first(module1, rest1, module2, rest2, '.');
    lemma_split_at_first(f1, label1, f2, label2, '$');
}

/// A `goto` or `if-goto` goes to the label that a `label` instruction with
/// the same label text defines in the same frame of the same module, and to
/// no label that one defines in a frame of that module that is written
/// differently.
pub proof fn lemma_jump_resolves_in_frame(definition: InstructionView, jump: InstructionView)
    requires
        definition.operation == "label"@,
        jump.operation == "goto"@ || jump.operation == "if-goto"@,
        definition.arg1 is Some,
        jump.arg1 == definition.arg1,
        jump.module == definition.module,
    ensures
        branching(definition) == Ok::<Seq<Line>, DiagnosticView>(
            define_label(target(definition)),
        ),
        jump.operation == "goto"@ ==> branching(jump) == Ok::<Seq<Line>, DiagnosticView>(
            jump_to(target(jump)),
        ),
        jump.operation == "if-goto"@ ==> branching(jump) == Ok::<Seq<Line>, DiagnosticView>(
            jump_if(target(jump)),
        ),
        frame_name(jump.frame) == frame_name(definition.frame) ==> target(jump) == target(
            definition,
        ),
        frame_name(jump.frame) != frame_name(definition.frame) ==> target(jump) != target(
            definition,
        ),
{
    reveal_strlit("label");
    reveal_strlit("goto");
    reveal_strlit("if-goto");
    if frame_name(jump.frame) != frame_name(definition.frame) {
        lemma_labels_scoped_by_frame(
            definition.module,
            jump.frame,
            definition.frame,
            definition.arg1->0,
        );
    }
}

/// Every call site has a return label of its own: the labels of two calls
/// at different positions differ, and so do those of two calls in different
/// modules, where module names hold no dollar sign.
pub proof fn lemma_return_labels_distinct(
    module1: Seq<char>,
    frame1: Option<Seq<char>>,
    index1: nat,
    module2: Seq<char>,
    frame2: Option<Seq<char>>,
    index2: nat,
)
    requires
        index1 != index2 || (module1 != module2 && !module1.contains('$') && !module2.contains(
            '$',
        )),
    ensures
        return_label(module1, frame1, index1) != return_label(module2, frame2, index2),
{
    reveal_strlit("$ret.");
    reveal_strlit("$");
    let r = "$ret."@;
    let prefix1 = module1 + "$"@ + frame_name(frame1);
    let prefix2 = module2 + "$"@ + frame_name(frame2);
    if return_label(module1, frame1, index1) == return_label(module2, frame2, index2) {
        assert((prefix1 + r).last() == '.');
        assert((prefix2 + r).last() == '.');
        lemma_numbered(prefix1 + r, index1, prefix2 + r, index2);
        lemma_same_suffix(prefix1, prefix2, r);
        assert("$"@ =~= seq!['$']);
        assert(prefix1 =~= module1.push('$') + frame_name(frame1));
        assert(prefix2 =~= module2.push('$') + frame_name(frame2));
        lemma_split_at_first(module1, frame_name(frame1), module2, frame_name(frame2), '$');
    }
}

} // verus!
