//! The branching generator: `label`, `goto` and `if-goto`.
//!
//! A label is written as `<module>.<frame>$<label>`, so that the same label
//! text in two functions, or in two modules, names two places.

use crate::assembly::{Emitter, Line};
use crate::instruction::{
    diagnostic, frame_name, option_view, Diagnostic, DiagnosticKind, DiagnosticView, Instruction,
    InstructionView,
};
use crate::outcome::{done, fail, quote, quoted, renders};
use crate::templates::{define_label, jump_if, jump_to};
use crate::text::equals;
use vstd::prelude::*;
use vstd::string::*;

verus! {

/// The name that the label `label` has in the frame `frame` of `module`.
pub open spec fn qualified_label(module: Seq<char>, frame: Option<Seq<char>>, label: Seq<char>)
    -> Seq<char> {
    module + "."@ + frame_name(frame) + "$"@ + label
}

/// The label that a branching instruction defines or jumps to.
pub open spec fn target(i: InstructionView) -> Seq<char>
    recommends
        i.arg1 is Some,
{
    qualified_label(i.module, i.frame, i.arg1->0)
}

/// What `label`, `goto` and `if-goto` translate to. A missing label name is
/// reported before an unknown mnemonic.
pub open spec fn branching(i: InstructionView) -> Result<Seq<Line>, DiagnosticView> {
    if i.arg1 is None {
        Err(diagnostic(DiagnosticKind::MissingArgument, i, "Missing label name argument"@))
    } else if i.operation == "label"@ {
        Ok(define_label(target(i)))
    } else if i.operation == "goto"@ {
        Ok(jump_to(target(i)))
    } else if i.operation == "if-goto"@ {
        Ok(jump_if(target(i)))
    } else {
        Err(
            diagnostic(
                DiagnosticKind::UnknownOperation,
                i,
                quoted("Invalid branching instruction '"@, i.operation, "'"@),
            ),
        )
    }
}

/// The name of a frame as it is written in labels.
pub fn frame_text(frame: &Option<String>) -> (s: &str)
    ensures
        s@ == frame_name(option_view(*frame)),
{
    match frame {
        Some(name) => name.as_str(),
        None => "global",
    }
}

/// The assembly for `label`, `goto` and `if-goto`.
pub fn generate_branching(instruction: &Instruction) -> (r: Result<String, Diagnostic>)
    ensures
        renders(r, branching(instruction@)),
{
    let label = match &instruction.arg1 {
        Some(label) => label.as_str(),
        None => {
            return fail(
                DiagnosticKind::MissingArgument,
                instruction,
                "Missing label name argument".to_owned(),
            );
        },
    };
    let mut name = instruction.module.clone();
    name.append(".");
    name.append(frame_text(&instruction.frame));
    name.append("$");
    name.append(label);
    assert(name@ =~= target(instruction@));
    let operation = instruction.operation.as_str();
    let mut e = Emitter::new();
    if equals(operation, "label") {
        e.define_label(name.as_str());
        assert(e.code() =~= define_label(name@));
    } else if equals(operation, "goto") {
        e.jump_to(name.as_str());
        assert(e.code() =~= jump_to(name@));
    } else if equals(operation, "if-goto") {
        e.jump_if(name.as_str());
        assert(e.code() =~= jump_if(name@));
    } else {
        return fail(
            DiagnosticKind::UnknownOperation,
            instruction,
            quote("Invalid branching instruction '", operation, "'"),
        );
    }
    done(e)
}

} // verus!
