//! The translation of whole programs: every module is parsed, every
//! instruction is placed in its frame and translated, and the outcome is
//! either the complete assembly text or the complete list of diagnostics.

use crate::arithmetic::{
    binary_comp, binary_operation, comparison_operation, generate_1op, generate_2op, generate_cmp,
    jump_of, unary_comp, unary_operation,
};
use crate::assembly::{lemma_render_concat, render, Emitter, Line};
use crate::branching::{branching, generate_branching};
use crate::ending_laws::{lemma_fragment_text, lemma_joined};
use crate::instruction::{
    diagnostic, enclosing_frame, lemma_frame_in_module, parse_line, views, Diagnostic,
    DiagnosticKind, DiagnosticView, Instruction, InstructionView,
};
use crate::linkage::{generate_functions, linkage};
use crate::memory::{generate_memop, mem_op_of, memory_access};
use crate::outcome::{fail, quote, quoted};
use crate::source::{
    clean_lines, lemma_clean_lines_trimmed, parse_contents, texts, trim_end, trimmed_end,
};
use crate::templates::bootstrap;
use crate::text::equals;
use vstd::prelude::*;
use vstd::string::*;

verus! {

/// Whether a mnemonic belongs to the branching family.
pub open spec fn is_branching(operation: Seq<char>) -> bool {
    operation == "label"@ || operation == "goto"@ || operation == "if-goto"@
}

/// Whether a mnemonic belongs to the function-linkage family.
pub open spec fn is_linkage(operation: Seq<char>) -> bool {
    operation == "function"@ || operation == "call"@ || operation == "return"@
}

/// The listing that one instruction translates to, by the family of its mnemonic.
pub open spec fn translation(i: InstructionView) -> Result<Seq<Line>, DiagnosticView> {
    if mem_op_of(i.operation) is Some {
        memory_access(i)
    } else if binary_comp(i.operation) is Some {
        binary_operation(i)
    } else if unary_comp(i.operation) is Some {
        unary_operation(i)
    } else if jump_of(i.operation) is Some {
        comparison_operation(i)
    } else if is_branching(i.operation) {
        branching(i)
    } else if is_linkage(i.operation) {
        linkage(i)
    } else {
        Err(
            diagnostic(
                DiagnosticKind::UnknownOperation,
                i,
                quoted("Invalid VM instruction '"@, i.operation, "'"@),
            ),
        )
    }
}

/// A listing behind a comment that repeats the source line it is for.
pub open spec fn echoed(i: InstructionView, code: Seq<Line>) -> Seq<Line> {
    Seq::empty().push(Line::Comment(i.raw)) + code
}

/// What one instruction contributes to the output: its source line as a
/// comment and its listing, or a diagnostic.
pub open spec fn fragment(i: InstructionView) -> Result<Seq<Line>, DiagnosticView> {
    match translation(i) {
        Ok(code) => Ok(echoed(i, code)),
        Err(d) => Err(d),
    }
}

/// The text that is written for an instruction with the listing `code`: the
/// source line as a comment, a line break, and the text of the listing
/// without the white space at its end.
pub open spec fn fragment_text(i: InstructionView, code: Seq<Line>) -> Seq<char> {
    "// "@ + i.raw + "\n"@ + trim_end(render(code))
}

/// What is written for one instruction: the text of its fragment, or a diagnostic.
pub open spec fn generated(i: InstructionView) -> Result<Seq<char>, DiagnosticView> {
    match translation(i) {
        Ok(code) => Ok(fragment_text(i, code)),
        Err(d) => Err(d),
    }
}

/// `result` is what `expected` asks for: the text, or the diagnostic, field by field.
pub open spec fn gives(
    result: Result<String, Diagnostic>,
    expected: Result<Seq<char>, DiagnosticView>,
) -> bool {
    match expected {
        Ok(text) => result matches Ok(s) && s@ == text,
        Err(d) => result matches Err(e) && e@ == d,
    }
}

/// What an instruction adds to the output text: what is written for it and
/// two line breaks, or nothing if it cannot be translated.
pub open spec fn joint(i: InstructionView) -> Seq<char> {
    match generated(i) {
        Ok(text) => text + "\n\n"@,
        Err(_) => Seq::empty(),
    }
}

/// The texts that are written for the instructions that can be translated,
/// in order, each followed by two line breaks.
pub open spec fn joined(instructions: Seq<InstructionView>) -> Seq<char>
    decreases instructions.len(),
{
    if instructions.len() == 0 {
        Seq::empty()
    } else {
        joined(instructions.drop_last()) + joint(instructions.last())
    }
}

/// The instructions of a module as the parser gives them, frames not yet resolved.
pub open spec fn parsed_module(name: Seq<char>, source: Seq<char>) -> Seq<InstructionView> {
    let lines = clean_lines(source);
    Seq::new(lines.len(), |k: int| parse_line(lines[k], k as nat, name))
}

/// The instruction at position `k` of a parsed module, in its frame.
pub open spec fn in_frame(parsed: Seq<InstructionView>, k: int) -> InstructionView {
    InstructionView { frame: enclosing_frame(parsed, k), ..parsed[k] }
}

/// The instructions of a module, each in the frame that the module's own
/// instructions before it give it.
pub open spec fn module_instructions(name: Seq<char>, source: Seq<char>) -> Seq<InstructionView> {
    let parsed = parsed_module(name, source);
    Seq::new(parsed.len(), |k: int| in_frame(parsed, k))
}

/// The instructions of a program: those of its modules, in the order of the modules.
pub open spec fn program_instructions(units: Seq<(Seq<char>, Seq<char>)>) -> Seq<InstructionView>
    decreases units.len(),
{
    if units.len() == 0 {
        Seq::empty()
    } else {
        program_instructions(units.drop_last()) + module_instructions(
            units.last().0,
            units.last().1,
        )
    }
}

/// What an instruction adds to the output text: its fragment and an empty
/// line, or nothing if it cannot be translated.
pub open spec fn listed(i: InstructionView) -> Seq<Line> {
    match fragment(i) {
        Ok(code) => code.push(Line::Blank),
        Err(_) => Seq::empty(),
    }
}

/// What an instruction adds to the diagnostics: one, if it cannot be translated.
pub open spec fn reported(i: InstructionView) -> Seq<DiagnosticView> {
    match fragment(i) {
        Ok(_) => Seq::empty(),
        Err(d) => Seq::empty().push(d),
    }
}

/// The fragments of the instructions that can be translated, in order.
pub open spec fn listing(instructions: Seq<InstructionView>) -> Seq<Line>
    decreases instructions.len(),
{
    if instructions.len() == 0 {
        Seq::empty()
    } else {
        listing(instructions.drop_last()) + listed(instructions.last())
    }
}

/// The diagnostics of the instructions that cannot be translated, in order.
pub open spec fn diagnostics(instructions: Seq<InstructionView>) -> Seq<DiagnosticView>
    decreases instructions.len(),
{
    if instructions.len() == 0 {
        Seq::empty()
    } else {
        diagnostics(instructions.drop_last()) + reported(instructions.last())
    }
}

/// The outcome of translating a program: all or nothing. With no diagnostic,
/// the bootstrap followed by every fragment in program order; with one or
/// more, all of them in program order and no listing.
pub open spec fn translated(units: Seq<(Seq<char>, Seq<char>)>) -> Result<
    Seq<Line>,
    Seq<DiagnosticView>,
> {
    let instructions = program_instructions(units);
    if diagnostics(instructions).len() == 0 {
        Ok(bootstrap() + listing(instructions))
    } else {
        Err(diagnostics(instructions))
    }
}

/// The modules of a program as pairs of texts: the name and the source.
pub open spec fn unit_views(contents: Seq<(String, String)>) -> Seq<(Seq<char>, Seq<char>)> {
    contents.map_values(|u: (String, String)| (u.0@, u.1@))
}

/// The views of a list of diagnostics, in the same order.
pub open spec fn diagnostic_views(v: Seq<Diagnostic>) -> Seq<DiagnosticView> {
    v.map_values(|d: Diagnostic| d@)
}

/// One more instruction adds what it lists and what it reports.
pub proof fn lemma_listing_push(instructions: Seq<InstructionView>, i: InstructionView)
    ensures
        listing(instructions.push(i)) == listing(instructions) + listed(i),
        diagnostics(instructions.push(i)) == diagnostics(instructions) + reported(i),
{
    assert(instructions.push(i).drop_last() =~= instructions);
}

/// The assembly for one instruction: a comment that repeats its source
/// line, a line break, and the text that the generator of its family
/// writes, without the white space at its end; or the diagnostic that says
/// why there is none. The text is the rendering of the instruction's
/// fragment, but for the line break at its end.
pub fn generate_code(instruction: &Instruction) -> (r: Result<String, Diagnostic>)
    ensures
        gives(r, generated(instruction@)),
        fragment(instruction@) matches Ok(code) ==> r matches Ok(text) && text@ == render(
            code,
        ).drop_last(),
{
    let operation = instruction.operation.as_str();
    let code = if equals(operation, "push") || equals(operation, "pop") {
        generate_memop(instruction)
    } else if equals(operation, "add") || equals(operation, "sub") || equals(operation, "and")
        || equals(operation, "or") {
        generate_2op(instruction)
    } else if equals(operation, "neg") || equals(operation, "not") {
        generate_1op(instruction)
    } else if equals(operation, "eq") || equals(operation, "gt") || equals(operation, "lt") {
        generate_cmp(instruction)
    } else if equals(operation, "label") || equals(operation, "goto") || equals(
        operation,
        "if-goto",
    ) {
        generate_branching(instruction)
    } else if equals(operation, "function") || equals(operation, "call") || equals(
        operation,
        "return",
    ) {
        generate_functions(instruction)
    } else {
        fail(
            DiagnosticKind::UnknownOperation,
            instruction,
            quote("Invalid VM instruction '", operation, "'"),
        )
    };
    proof {
        reveal_strlit("push");
        reveal_strlit("pop");
        reveal_strlit("add");
        reveal_strlit("sub");
        reveal_strlit("and");
        reveal_strlit("or");
        reveal_strlit("neg");
        reveal_strlit("not");
        reveal_strlit("eq");
        reveal_strlit("gt");
        reveal_strlit("lt");
        reveal_strlit("label");
        reveal_strlit("goto");
        reveal_strlit("if-goto");
        reveal_strlit("function");
        reveal_strlit("call");
        reveal_strlit("return");
    }
    match code {
        Err(d) => Err(d),
        Ok(text) => {
            let ghost listing = translation(instruction@)->Ok_0;
            let mut s = String::new();
            s.append("// ");
            s.append(instruction.raw.as_str());
            s.append("\n");
            s.append(trimmed_end(text.as_str()).as_str());
            proof {
                assert(s@ =~= fragment_text(instruction@, listing));
                lemma_fragment_text(instruction@);
            }
            Ok(s)
        },
    }
}

/// Parses the instruction lines of one module.
fn parse_module(name: &str, source: &str) -> (parsed: Vec<Instruction>)
    ensures
        views(parsed@) == parsed_module(name@, source@),
{
    let lines = parse_contents(source);
    let mut parsed: Vec<Instruction> = Vec::new();
    let mut k: usize = 0;
    while k < lines.len()
        invariant
            k <= lines.len(),
            texts(lines@) == clean_lines(source@),
            parsed.len() == k,
            forall|j: int|
                0 <= j < k ==> (#[trigger] parsed@[j])@ == parse_line(
                    clean_lines(source@)[j],
                    j as nat,
                    name@,
                ),
        decreases lines.len() - k,
    {
        proof {
            assert(texts(lines@)[k as int] == lines@[k as int]@);
            lemma_clean_lines_trimmed(source@, k as int);
        }
        parsed.push(Instruction::parse(lines[k].as_str(), k, name));
        k += 1;
    }
    assert(texts(lines@).len() == lines@.len());
    assert(views(parsed@) =~= parsed_module(name@, source@));
    parsed
}

/// Translates one module: each instruction adds its fragment to `output`,
/// or its diagnostic to `errors`.
fn translate_module(
    name: &str,
    source: &str,
    output: &mut Emitter,
    errors: &mut Vec<Diagnostic>,
    Ghost(before): Ghost<Seq<InstructionView>>,
)
    requires
        old(output).wf(),
        old(output).code() == bootstrap() + listing(before),
        diagnostic_views(old(errors)@) == diagnostics(before),
    ensures
        final(output).wf(),
        final(output).code() == bootstrap() + listing(before + module_instructions(name@, source@)),
        diagnostic_views(final(errors)@) == diagnostics(
            before + module_instructions(name@, source@),
        ),
{
    let parsed = parse_module(name, source);
    let ghost module = module_instructions(name@, source@);
    let mut k: usize = 0;
    assert(before + module.take(0) =~= before);
    while k < parsed.len()
        invariant
            k <= parsed.len(),
            views(parsed@) == parsed_module(name@, source@),
            module == module_instructions(name@, source@),
            module.len() == parsed.len(),
            output.wf(),
            output.code() == bootstrap() + listing(before + module.take(k as int)),
            diagnostic_views(errors@) == diagnostics(before + module.take(k as int)),
        decreases parsed.len() - k,
    {
        let ghost sofar = before + module.take(k as int);
        let ghost reports = diagnostic_views(errors@);
        let mut instruction = parsed[k].clone();
        instruction.set_frame(&parsed);
        proof {
            assert(views(parsed@)[k as int] == parsed@[k as int]@);
            lemma_frame_in_module(views(parsed@), name@, k as nat);
            assert(instruction@ == module[k as int]);
            lemma_listing_push(sofar, instruction@);
            assert(before + module.take(k + 1) =~= sofar.push(instruction@));
        }
        match generate_code(&instruction) {
            Ok(text) => {
                let mut whole = text;
                whole.append("\n\n");
                proof {
                    lemma_fragment_text(instruction@);
                }
                output.append(whole.as_str(), Ghost(listed(instruction@)));
                assert(output.code() =~= bootstrap() + listing(sofar.push(instruction@)));
                assert(diagnostics(sofar.push(instruction@)) =~= diagnostics(sofar));
            },
            Err(d) => {
                errors.push(d);
                assert(diagnostic_views(errors@) =~= reports.push(d@));
                assert(diagnostic_views(errors@) =~= diagnostics(sofar.push(instruction@)));
                assert(listing(sofar.push(instruction@)) =~= listing(sofar));
            },
        }
        k += 1;
    }
    assert(module.take(parsed.len() as int) =~= module);
}

/// Translates a program, given as its modules in order, each a name and a
/// source text. The outcome is all or nothing: the assembly for the whole
/// program, which starts with the bootstrap and goes on with what
/// `generate_code` writes for each instruction in program order, each
/// followed by two line breaks; or, if any instruction cannot be
/// translated, the diagnostics for all that cannot, in program order.
pub fn translate(contents: Vec<(String, String)>) -> (r: Result<String, Vec<Diagnostic>>)
    ensures
        match translated(unit_views(contents@)) {
            Ok(code) => r matches Ok(text) && text@ == render(code) && text@ == render(
                bootstrap(),
            ) + joined(program_instructions(unit_views(contents@))),
            Err(reports) => r matches Err(errors) && diagnostic_views(errors@) == reports,
        },
{
    let ghost units = unit_views(contents@);
    proof {
        lemma_joined(program_instructions(units));
        lemma_render_concat(bootstrap(), listing(program_instructions(units)));
    }
    let mut output = Emitter::new();
    output.bootstrap();
    let mut errors: Vec<Diagnostic> = Vec::new();
    let mut m: usize = 0;
    assert(output.code() =~= bootstrap() + listing(program_instructions(units.take(0))));
    assert(diagnostic_views(errors@) =~= diagnostics(program_instructions(units.take(0))));
    while m < contents.len()
        invariant
            m <= contents.len(),
            units == unit_views(contents@),
            output.wf(),
            output.code() == bootstrap() + listing(program_instructions(units.take(m as int))),
            diagnostic_views(errors@) == diagnostics(program_instructions(units.take(m as int))),
        decreases contents.len() - m,
    {
        let ghost before = program_instructions(units.take(m as int));
        proof {
            assert(units.take(m + 1).drop_last() =~= units.take(m as int));
            assert(units.take(m + 1).last() == units[m as int]);
        }
        translate_module(
            contents[m].0.as_str(),
            contents[m].1.as_str(),
            &mut output,
            &mut errors,
            Ghost(before),
        );
        m += 1;
    }
    assert(units.take(contents.len() as int) =~= units);
    if errors.len() == 0 {
        Ok(output.finish())
    } else {
        Err(errors)
    }
}

} // verus!
