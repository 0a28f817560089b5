//! Laws about the assembler's side of a listing: a listing in which no
//! label is defined twice, and which fits in instruction memory, has a
//! symbol table that gives every label the address of its line.

use crate::assembly::Line;
use crate::execution::{address_of, lemma_address_monotone, resolves};
use crate::machine::Symbols;
use vstd::prelude::*;

verus! {

/// The label that a line defines, if it defines one.
pub open spec fn label_of(line: Line) -> Seq<Seq<char>> {
    match line {
        Line::Label(name) => Seq::empty().push(name),
        _ => Seq::empty(),
    }
}

/// The labels that a listing defines, in the order of their lines.
pub open spec fn labels_in(code: Seq<Line>) -> Seq<Seq<char>>
    decreases code.len(),
{
    if code.len() == 0 {
        Seq::empty()
    } else {
        labels_in(code.drop_last()) + label_of(code.last())
    }
}

/// Whether the names of a list are all different.
pub open spec fn distinct(names: Seq<Seq<char>>) -> bool {
    forall|a: int, b: int| 0 <= a < b < names.len() ==> names[a] != names[b]
}

/// The size of instruction memory.
pub open spec fn memory_size() -> int {
    0x8000
}

/// The labels of a listing with one more line are those of the listing, then that of the line.
pub proof fn lemma_labels_push(code: Seq<Line>, line: Line)
    ensures
        labels_in(code.push(line)) == labels_in(code) + label_of(line),
{
    assert(code.push(line).drop_last() =~= code);
}

/// The labels of two listings in a row are their labels in a row.
pub proof fn lemma_labels_concat(a: Seq<Line>, b: Seq<Line>)
    ensures
        labels_in(a + b) == labels_in(a) + labels_in(b),
    decreases b.len(),
{
    if b.len() == 0 {
        assert(a + b =~= a);
        assert(labels_in(a) + labels_in(b) =~= labels_in(a));
    } else {
        lemma_labels_concat(a, b.drop_last());
        assert((a + b).drop_last() =~= a + b.drop_last());
        assert(labels_in(a + b) =~= labels_in(a) + labels_in(b));
    }
}

/// The label on line `p` is one of the labels of the listing: the one that
/// comes after the labels of the lines before it.
pub proof fn lemma_label_rank(code: Seq<Line>, p: int)
    requires
        0 <= p < code.len(),
        code[p] is Label,
    ensures
        labels_in(code.take(p)).len() < labels_in(code).len(),
        labels_in(code)[labels_in(code.take(p)).len() as int] == code[p]->Label_0,
{
    let before = code.take(p);
    let after = code.skip(p + 1);
    assert(code =~= before.push(code[p]) + after);
    lemma_labels_concat(before.push(code[p]), after);
    lemma_labels_push(before, code[p]);
}

/// Of two lines with labels, the later has more labels before it.
pub proof fn lemma_label_rank_grows(code: Seq<Line>, p: int, k: int)
    requires
        0 <= p < k < code.len(),
        code[p] is Label,
    ensures
        labels_in(code.take(p)).len() < labels_in(code.take(k)).len(),
        labels_in(code.take(k)).len() <= labels_in(code).len(),
{
    let shorter = code.take(k);
    assert(shorter.take(p) =~= code.take(p));
    assert(shorter[p] == code[p]);
    lemma_label_rank(shorter, p);
    assert(code =~= shorter + code.skip(k));
    lemma_labels_concat(shorter, code.skip(k));
}

/// Where no label is defined twice, a label stands on one line only.
pub proof fn lemma_label_once(code: Seq<Line>, p: int, k: int)
    requires
        distinct(labels_in(code)),
        0 <= p < code.len(),
        0 <= k < code.len(),
        code[p] is Label,
        code[k] == code[p],
    ensures
        p == k,
{
    lemma_label_rank(code, p);
    lemma_label_rank(code, k);
    if p < k {
        lemma_label_rank_grows(code, p, k);
    }
    if k < p {
        lemma_label_rank_grows(code, k, p);
    }
}

/// The symbol table that gives every label of `code` the address of a line
/// that it stands on.
pub open spec fn symbols_of(code: Seq<Line>) -> Symbols {
    Map::new(
        |name: Seq<char>| exists|p: int| 0 <= p < code.len() && code[p] == Line::Label(name),
        |name: Seq<char>|
            address_of(code, choose|p: int| 0 <= p < code.len() && code[p] == Line::Label(name)) as u16,
    )
}

/// A listing that defines no label twice and fits in instruction memory can
/// be assembled: there is a symbol table that gives every label the address
/// of its line.
pub proof fn lemma_resolvable(code: Seq<Line>)
    requires
        distinct(labels_in(code)),
        address_of(code, code.len() as int) <= memory_size(),
    ensures
        resolves(code, symbols_of(code)),
{
    let symbols = symbols_of(code);
    assert forall|k: int| 0 <= k < code.len() && (#[trigger] code[k]) is Label implies symbols.dom().contains(
        code[k]->Label_0,
    ) && symbols[code[k]->Label_0] == address_of(code, k) by {
        let name = code[k]->Label_0;
        assert(code[k] == Line::Label(name));
        let p = choose|p: int| 0 <= p < code.len() && code[p] == Line::Label(name);
        lemma_label_once(code, k, p);
        lemma_address_monotone(code, k, code.len() as int);
    }
}

} // verus!
