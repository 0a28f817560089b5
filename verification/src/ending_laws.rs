//! Laws about how listings end: the listing of every instruction ends with
//! an instruction or a label, so that its text ends with one line break
//! and has no other white space at its end.

use crate::arithmetic::{binary_comp, jump_of, unary_comp};
use crate::assembly::{
    comp_text, dest_text, jump_text, lemma_render_concat, lemma_render_push, render, render_line,
    Comp, Jump, Line,
};
use crate::collision_laws::lemma_mnemonics;
use crate::instruction::{DiagnosticView, InstructionView};
use crate::linkage_laws::locals_of;
use crate::memory::{mem_op_of, memory_access};
use crate::source::trim_end;
use crate::stack_laws::{lemma_pop_is_pop_listing, lemma_push_is_push_listing};
use crate::templates::{push_zero, unary, zeros};
use crate::text::is_space;
use crate::translate::{echoed, fragment_text, generated, joined, listed, listing, translation};
use vstd::prelude::*;

verus! {

/// Whether a line is written as text that ends a listing well: an
/// instruction that computes, or a label.
pub open spec fn closes(line: Line) -> bool {
    line is Compute || line is Label
}

/// Whether a listing ends with a line that closes it.
pub open spec fn closed(code: Seq<Line>) -> bool {
    code.len() > 0 && closes(code.last())
}

/// Whether a text is some text that does not end with white space, and a line break.
pub open spec fn ends_with_one_break(text: Seq<char>) -> bool {
    &&& text.len() >= 2
    &&& text.last() == '\n'
    &&& !is_space(text[text.len() - 2])
}

/// A computation is written with a last character that is no white space.
pub proof fn lemma_comp_text_ends(c: Comp)
    ensures
        comp_text(c).len() > 0,
        !is_space(comp_text(c).last()),
{
    reveal_strlit("0");
    reveal_strlit("1");
    reveal_strlit("-1");
    reveal_strlit("D");
    reveal_strlit("A");
    reveal_strlit("M");
    reveal_strlit("!D");
    reveal_strlit("!A");
    reveal_strlit("!M");
    reveal_strlit("-D");
    reveal_strlit("-A");
    reveal_strlit("-M");
    reveal_strlit("D+1");
    reveal_strlit("A+1");
    reveal_strlit("M+1");
    reveal_strlit("D-1");
    reveal_strlit("A-1");
    reveal_strlit("M-1");
    reveal_strlit("D+A");
    reveal_strlit("D+M");
    reveal_strlit("D-A");
    reveal_strlit("D-M");
    reveal_strlit("A-D");
    reveal_strlit("M-D");
    reveal_strlit("D&A");
    reveal_strlit("D&M");
    reveal_strlit("D|A");
    reveal_strlit("D|M");
    reveal_strlit("M+D");
    reveal_strlit("M&D");
    reveal_strlit("M|D");
    let t = comp_text(c);
    assert(t.len() >= 1 && t.len() <= 3);
    assert(t.last() == '0' || t.last() == '1' || t.last() == 'D' || t.last() == 'A' || t.last()
        == 'M');
}

/// A jump is written with a last character that is no white space.
pub proof fn lemma_jump_text_ends(j: Jump)
    ensures
        !(j is Null) ==> jump_text(j).len() > 0 && !is_space(jump_text(j).last()),
        j is Null ==> jump_text(j).len() == 0,
{
    reveal_strlit(";JGT");
    reveal_strlit(";JEQ");
    reveal_strlit(";JGE");
    reveal_strlit(";JLT");
    reveal_strlit(";JNE");
    reveal_strlit(";JLE");
    reveal_strlit(";JMP");
    let t = jump_text(j);
    if !(j is Null) {
        assert(t.len() == 4);
        assert(t.last() == 'T' || t.last() == 'Q' || t.last() == 'E' || t.last() == 'P');
    }
}

/// The text of a line that closes a listing ends with one line break.
pub proof fn lemma_line_ends(line: Line)
    requires
        closes(line),
    ensures
        ends_with_one_break(render_line(line)),
{
    reveal_strlit("\n");
    reveal_strlit("(");
    reveal_strlit(")\n");
    let text = render_line(line);
    match line {
        Line::Compute(d, c, j) => {
            lemma_comp_text_ends(c);
            lemma_jump_text_ends(j);
            let body = dest_text(d) + comp_text(c) + jump_text(j);
            assert(text == body + "\n"@);
            assert(body.len() > 0);
            if j is Null {
                assert(body.last() == comp_text(c).last());
            } else {
                assert(body.last() == jump_text(j).last());
            }
            assert(text[text.len() - 2] == body.last());
        },
        Line::Label(name) => {
            assert(text[text.len() - 2] == ')');
        },
        _ => {},
    }
}

/// The text of a closed listing ends with one line break.
pub proof fn lemma_render_ends(code: Seq<Line>)
    requires
        closed(code),
    ensures
        ends_with_one_break(render(code)),
{
    lemma_line_ends(code.last());
    let before = render(code.drop_last());
    let last = render_line(code.last());
    assert(render(code) == before + last);
    assert((before + last)[(before + last).len() - 2] == last[last.len() - 2]);
}

/// A text that ends with one line break loses just the line break when
/// the white space at its end is taken off.
pub proof fn lemma_trim_one_break(text: Seq<char>)
    requires
        ends_with_one_break(text),
    ensures
        trim_end(text) == text.drop_last(),
        trim_end(text) + "\n"@ == text,
{
    reveal_strlit("\n");
    let shorter = text.drop_last();
    assert(is_space('\n'));
    assert(trim_end(text) == trim_end(shorter));
    assert(shorter.last() == text[text.len() - 2]);
    assert(trim_end(shorter) == shorter);
    assert(shorter + "\n"@ =~= text);
}

/// Opening one or more local cells ends with an instruction.
pub proof fn lemma_zeros_closed(count: nat)
    requires
        count > 0,
    ensures
        closed(zeros(count)),
{
    let before = zeros((count - 1) as nat);
    let z = push_zero();
    assert(z.len() == 4);
    assert(zeros(count) == before + z);
    assert((before + z).last() == z.last());
}

/// The listing of every instruction that has one is closed.
#[verifier::rlimit(40)]
pub proof fn lemma_translation_closed(i: InstructionView)
    requires
        translation(i) is Ok,
    ensures
        closed(translation(i)->Ok_0),
{
    lemma_mnemonics();
    let code = translation(i)->Ok_0;
    if mem_op_of(i.operation) is Some {
        if i.operation == "push"@ {
            lemma_push_is_push_listing(i);
        } else {
            lemma_pop_is_pop_listing(i);
        }
        assert(memory_access(i) is Ok);
        assert(closed(code));
    } else if binary_comp(i.operation) is Some {
        assert(closed(code));
    } else if unary_comp(i.operation) is Some {
        assert(closed(code));
    } else if jump_of(i.operation) is Some {
        assert(closed(code));
    } else if i.operation == "function"@ {
        let locals = locals_of(i);
        if locals > 0 {
            lemma_zeros_closed(locals);
            assert(code.last() == zeros(locals).last());
        } else {
            assert(zeros(0).len() == 0);
        }
        assert(closed(code));
    } else {
        assert(closed(code));
    }
}

/// The text that is written for an instruction is the rendering of its
/// fragment without the line break at its end, and the rendering of what
/// the instruction adds to the output without the two line breaks at its
/// end.
#[verifier::rlimit(40)]
pub proof fn lemma_fragment_text(i: InstructionView)
    requires
        translation(i) is Ok,
    ensures
        fragment_text(i, translation(i)->Ok_0) + "\n"@ == render(
            echoed(i, translation(i)->Ok_0),
        ),
        fragment_text(i, translation(i)->Ok_0) == render(echoed(i, translation(i)->Ok_0)).drop_last(),
        fragment_text(i, translation(i)->Ok_0) + "\n\n"@ == render(listed(i)),
{
    reveal_strlit("\n");
    reveal_strlit("\n\n");
    let code = translation(i)->Ok_0;
    let comment = Seq::<Line>::empty().push(Line::Comment(i.raw));
    lemma_translation_closed(i);
    lemma_render_ends(code);
    lemma_trim_one_break(render(code));
    lemma_render_push(Seq::empty(), Line::Comment(i.raw));
    lemma_render_concat(comment, code);
    lemma_render_push(echoed(i, code), Line::Blank);
    let head = "// "@ + i.raw + "\n"@;
    assert(render(comment) =~= head);
    let text = fragment_text(i, code);
    assert(text + "\n"@ =~= head + (trim_end(render(code)) + "\n"@));
    assert(text + "\n"@ == render(echoed(i, code)));
    assert(text =~= (text + "\n"@).drop_last());
    assert(text + "\n\n"@ =~= (text + "\n"@) + "\n"@);
}

/// The text of the fragments of a run of instructions is the texts that
/// are written for them, each followed by two line breaks.
pub proof fn lemma_joined(instructions: Seq<InstructionView>)
    ensures
        render(listing(instructions)) == joined(instructions),
    decreases instructions.len(),
{
    if instructions.len() > 0 {
        let last = instructions.last();
        lemma_joined(instructions.drop_last());
        lemma_render_concat(listing(instructions.drop_last()), listed(last));
        if translation(last) is Ok {
            lemma_fragment_text(last);
        }
    }
}

/// What is written for `neg`: the source line as a comment, a line break,
/// and the three lines that change the sign of the cell on top of the
/// stack, without a line break at the end.
#[verifier::rlimit(40)]
pub proof fn lemma_code_of_neg(i: InstructionView)
    requires
        i.operation == "neg"@,
    ensures
        generated(i) == Ok::<Seq<char>, DiagnosticView>(
            "// "@ + i.raw + "\n@SP\nA=M-1\nM=-M"@,
        ),
{
    broadcast use lemma_render_push;

    lemma_mnemonics();
    reveal_strlit("@");
    reveal_strlit("SP");
    reveal_strlit("\n");
    reveal_strlit("A=");
    reveal_strlit("M-1");
    reveal_strlit("M=");
    reveal_strlit("-M");
    reveal_strlit("@SP\nA=M-1\nM=-M\n");
    reveal_strlit("\n@SP\nA=M-1\nM=-M");
    let code = unary(Comp::NegM);
    assert(translation(i) == Ok::<Seq<Line>, DiagnosticView>(code));
    let whole = "@SP\nA=M-1\nM=-M\n"@;
    let text = render(code);
    assert(text.len() == whole.len());
    assert forall|j: int| 0 <= j < whole.len() implies text[j] == whole[j] by {
        assert(j == 0 || j == 1 || j == 2 || j == 3 || j == 4 || j == 5 || j == 6 || j == 7 || j == 8 || j == 9 || j == 10 || j == 11 || j == 12 || j == 13 || j == 14);
    }
    assert(text =~= whole);
    assert(ends_with_one_break(whole));
    lemma_trim_one_break(whole);
    let kept = "\n@SP\nA=M-1\nM=-M"@;
    let tail = "\n"@ + trim_end(whole);
    assert(tail.len() == kept.len());
    assert forall|j: int| 0 <= j < kept.len() implies tail[j] == kept[j] by {
        assert(j == 0 || j == 1 || j == 2 || j == 3 || j == 4 || j == 5 || j == 6 || j == 7 || j == 8 || j == 9 || j == 10 || j == 11 || j == 12 || j == 13 || j == 14);
    }
    assert(tail =~= kept);
    assert(fragment_text(i, code) =~= "// "@ + i.raw + tail);
}

} // verus!
