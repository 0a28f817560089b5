//! Laws about the kinds of names in the output: the names that the
//! translator makes up, for comparisons, for call sites and for the
//! bootstrap, never coincide with each other, with a label of the source or
//! with the name of a function.
//!
//! Some of these laws need the names of the source to be plain: a module
//! name without a dot or a dollar sign, a function name without a dollar
//! sign.

use crate::arithmetic::{done_label, hit_label};
use crate::branching::qualified_label;
use crate::instruction::frame_name;
use crate::label_laws::lemma_numbered;
use crate::linkage::return_label;
use crate::templates::bootstrap_return;
use crate::text::{decimal, is_digit, lemma_decimal_digits};
use vstd::prelude::*;

verus! {

/// A module name that holds neither a dot nor a dollar sign.
pub open spec fn plain_module(module: Seq<char>) -> bool {
    !module.contains('.') && !module.contains('$')
}

/// A function name that holds no dollar sign.
pub open spec fn plain_function(name: Seq<char>) -> bool {
    !name.contains('$')
}

/// Two texts differ if the first of two marks comes first in the one and
/// the second of them comes first in the other.
pub proof fn lemma_first_mark(
    a1: Seq<char>,
    b1: Seq<char>,
    a2: Seq<char>,
    b2: Seq<char>,
    c1: char,
    c2: char,
)
    requires
        c1 != c2,
        !a1.contains(c1) && !a1.contains(c2),
        !a2.contains(c1) && !a2.contains(c2),
    ensures
        a1.push(c1) + b1 != a2.push(c2) + b2,
{
    let t1 = a1.push(c1) + b1;
    let t2 = a2.push(c2) + b2;
    if t1 == t2 {
        if a1.len() < a2.len() {
            assert(t1[a1.len() as int] == c1);
            assert(t2[a1.len() as int] == a2[a1.len() as int]);
            assert(a2.contains(c1));
        } else if a2.len() < a1.len() {
            assert(t2[a2.len() as int] == c2);
            assert(t1[a2.len() as int] == a1[a2.len() as int]);
            assert(a1.contains(c2));
        } else {
            assert(t1[a1.len() as int] == c1);
            assert(t2[a2.len() as int] == c2);
        }
    }
}

/// The names that the translator makes up all hold a dollar sign.
pub proof fn lemma_made_up_names_hold_a_dollar(
    module: Seq<char>,
    frame: Option<Seq<char>>,
    label: Seq<char>,
    index: nat,
)
    ensures
        hit_label(module, index).contains('$'),
        done_label(module, index).contains('$'),
        return_label(module, frame, index).contains('$'),
        qualified_label(module, frame, label).contains('$'),
        bootstrap_return().contains('$'),
{
    reveal_strlit("$true.");
    reveal_strlit("$done.");
    reveal_strlit("$ret.");
    reveal_strlit("$");
    reveal_strlit(".");
    reveal_strlit("bootstrap$ret");
    let n = module.len() as int;
    assert(hit_label(module, index)[n] == '$');
    assert(done_label(module, index)[n] == '$');
    assert(return_label(module, frame, index)[n] == '$');
    assert(qualified_label(module, frame, label)[n + 1 + frame_name(frame).len()] == '$');
    assert(bootstrap_return()[9] == '$');
}

/// The name of a function that holds no dollar sign is none of the names
/// that the translator makes up.
pub proof fn lemma_function_names_apart(
    name: Seq<char>,
    module: Seq<char>,
    frame: Option<Seq<char>>,
    label: Seq<char>,
    index: nat,
)
    requires
        plain_function(name),
    ensures
        name != hit_label(module, index),
        name != done_label(module, index),
        name != return_label(module, frame, index),
        name != qualified_label(module, frame, label),
        name != bootstrap_return(),
{
    lemma_made_up_names_hold_a_dollar(module, frame, label, index);
}

/// The label of a comparison is never the return label of a call.
pub proof fn lemma_comparison_and_return_labels_apart(
    module1: Seq<char>,
    index1: nat,
    module2: Seq<char>,
    frame2: Option<Seq<char>>,
    index2: nat,
)
    ensures
        hit_label(module1, index1) != return_label(module2, frame2, index2),
        done_label(module1, index1) != return_label(module2, frame2, index2),
{
    reveal_strlit("$true.");
    reveal_strlit("$done.");
    reveal_strlit("$ret.");
    let t = "$true."@;
    let d = "$done."@;
    let r = "$ret."@;
    let head = module2 + "$"@ + frame_name(frame2);
    let back = head + r;
    assert(back.len() == head.len() + 5);
    assert(back.last() == '.');
    assert(back[back.len() - 5] == '$');
    if hit_label(module1, index1) == return_label(module2, frame2, index2) {
        let mine = module1 + t;
        assert(mine.len() == module1.len() + 6);
        assert(mine.last() == '.');
        lemma_numbered(mine, index1, back, index2);
        assert(mine[mine.len() - 5] == 't');
    }
    if done_label(module1, index1) == return_label(module2, frame2, index2) {
        let mine = module1 + d;
        assert(mine.len() == module1.len() + 6);
        assert(mine.last() == '.');
        lemma_numbered(mine, index1, back, index2);
        assert(mine[mine.len() - 5] == 'd');
    }
}

/// Where module names are plain, the label of a comparison and the return
/// label of a call are never a label of the source.
pub proof fn lemma_made_up_and_source_labels_apart(
    module1: Seq<char>,
    frame1: Option<Seq<char>>,
    index1: nat,
    module2: Seq<char>,
    frame2: Option<Seq<char>>,
    label2: Seq<char>,
)
    requires
        plain_module(module1),
        plain_module(module2),
    ensures
        hit_label(module1, index1) != qualified_label(module2, frame2, label2),
        done_label(module1, index1) != qualified_label(module2, frame2, label2),
        return_label(module1, frame1, index1) != qualified_label(module2, frame2, label2),
{
    reveal_strlit("$true.");
    reveal_strlit("$done.");
    reveal_strlit("$ret.");
    reveal_strlit("$");
    reveal_strlit(".");
    let source = qualified_label(module2, frame2, label2);
    let rest2 = frame_name(frame2) + "$"@ + label2;
    assert("$"@ =~= seq!['$']);
    assert("."@ =~= seq!['.']);
    assert(source =~= module2.push('.') + rest2);
    let true_rest = "$true."@.skip(1) + decimal(index1);
    let done_rest = "$done."@.skip(1) + decimal(index1);
    let back_rest = frame_name(frame1) + "$ret."@ + decimal(index1);
    assert(hit_label(module1, index1) =~= module1.push('$') + true_rest);
    assert(done_label(module1, index1) =~= module1.push('$') + done_rest);
    assert(return_label(module1, frame1, index1) =~= module1.push('$') + back_rest);
    lemma_first_mark(module1, true_rest, module2, rest2, '$', '.');
    lemma_first_mark(module1, done_rest, module2, rest2, '$', '.');
    lemma_first_mark(module1, back_rest, module2, rest2, '$', '.');
}

/// The return label of the bootstrap is none of the other names that the
/// translator makes up, and no label of the source.
pub proof fn lemma_bootstrap_return_apart(
    module: Seq<char>,
    frame: Option<Seq<char>>,
    label: Seq<char>,
    index: nat,
)
    ensures
        bootstrap_return() != hit_label(module, index),
        bootstrap_return() != done_label(module, index),
        bootstrap_return() != return_label(module, frame, index),
        bootstrap_return() != qualified_label(module, frame, label),
{
    reveal_strlit("bootstrap$ret");
    reveal_strlit(".");
    let boot = bootstrap_return();
    assert(boot.len() == 13);
    assert(boot.last() == 't');
    lemma_decimal_digits(index);
    let digits = decimal(index);
    assert(is_digit(digits.last()));
    assert(hit_label(module, index).last() == digits.last());
    assert(done_label(module, index).last() == digits.last());
    assert(return_label(module, frame, index).last() == digits.last());
    let named = qualified_label(module, frame, label);
    if boot == named {
        assert(named[module.len() as int] == '.');
        assert(boot[0] == 'b' && boot[1] == 'o' && boot[2] == 'o' && boot[3] == 't' && boot[4]
            == 's' && boot[5] == 't' && boot[6] == 'r' && boot[7] == 'a' && boot[8] == 'p'
            && boot[9] == '$' && boot[10] == 'r' && boot[11] == 'e' && boot[12] == 't');
    }
}

} // verus!
