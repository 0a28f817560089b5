//! The arithmetic, logical and comparison generators.
//!
//! A binary operator replaces the two cells on top of the stack by one: the
//! lower cell, the operator, the upper cell, in this order. A unary operator
//! changes the top cell in place. A comparison replaces the two top cells by
//! -1 (all ones) for true and 0 for false; as it jumps, each one gets two
//! labels of its own, named after its module and its position in it.

use crate::assembly::{Comp, Emitter, Jump, Line};
use crate::instruction::{
    diagnostic, Diagnostic, DiagnosticKind, DiagnosticView, Instruction, InstructionView,
};
use crate::outcome::{done, fail, numeral, prefixed, quote, quoted, renders};
use crate::templates::{binary, comparison, unary};
use crate::text::{decimal, equals};
use vstd::prelude::*;
use vstd::string::*;

verus! {

/// What a binary operator computes, with the upper operand in `D` and the lower one as `M`.
pub open spec fn binary_comp(operation: Seq<char>) -> Option<Comp> {
    if operation == "add"@ {
        Some(Comp::MPlusD)
    } else if operation == "sub"@ {
        Some(Comp::MMinusD)
    } else if operation == "and"@ {
        Some(Comp::MAndD)
    } else if operation == "or"@ {
        Some(Comp::MOrD)
    } else {
        None
    }
}

/// What a unary operator computes, with the operand as `M`.
pub open spec fn unary_comp(operation: Seq<char>) -> Option<Comp> {
    if operation == "neg"@ {
        Some(Comp::NegM)
    } else if operation == "not"@ {
        Some(Comp::NotM)
    } else {
        None
    }
}

/// The jump that is taken, on the lower operand minus the upper one, when a comparison holds.
pub open spec fn jump_of(operation: Seq<char>) -> Option<Jump> {
    if operation == "eq"@ {
        Some(Jump::Jeq)
    } else if operation == "gt"@ {
        Some(Jump::Jgt)
    } else if operation == "lt"@ {
        Some(Jump::Jlt)
    } else {
        None
    }
}

/// The label that the comparison at position `index` of `module` jumps to when it holds.
pub open spec fn hit_label(module: Seq<char>, index: nat) -> Seq<char> {
    module + "$true."@ + decimal(index)
}

/// The label behind the comparison at position `index` of `module`.
pub open spec fn done_label(module: Seq<char>, index: nat) -> Seq<char> {
    module + "$done."@ + decimal(index)
}

/// What `add`, `sub`, `and` and `or` translate to.
pub open spec fn binary_operation(i: InstructionView) -> Result<Seq<Line>, DiagnosticView> {
    match binary_comp(i.operation) {
        Some(comp) => Ok(binary(comp)),
        None => Err(
            diagnostic(
                DiagnosticKind::UnknownOperation,
                i,
                "Invalid 2-operand arithemtic/logical instruction "@ + i.operation,
            ),
        ),
    }
}

/// What `neg` and `not` translate to.
pub open spec fn unary_operation(i: InstructionView) -> Result<Seq<Line>, DiagnosticView> {
    match unary_comp(i.operation) {
        Some(comp) => Ok(unary(comp)),
        None => Err(
            diagnostic(
                DiagnosticKind::UnknownOperation,
                i,
                quoted("Invalid 1-operand logical instruction '"@, i.operation, "'"@),
            ),
        ),
    }
}

/// What `eq`, `gt` and `lt` translate to.
pub open spec fn comparison_operation(i: InstructionView) -> Result<Seq<Line>, DiagnosticView> {
    match jump_of(i.operation) {
        Some(jump) => Ok(
            comparison(jump, hit_label(i.module, i.index), done_label(i.module, i.index)),
        ),
        None => Err(
            diagnostic(
                DiagnosticKind::UnknownOperation,
                i,
                quoted("Invalid logical comparison instruction '"@, i.operation, "'"@),
            ),
        ),
    }
}

/// The assembly for `add`, `sub`, `and` and `or`.
pub fn generate_2op(instruction: &Instruction) -> (r: Result<String, Diagnostic>)
    ensures
        renders(r, binary_operation(instruction@)),
{
    let operation = instruction.operation.as_str();
    let comp = if equals(operation, "add") {
        Comp::MPlusD
    } else if equals(operation, "sub") {
        Comp::MMinusD
    } else if equals(operation, "and") {
        Comp::MAndD
    } else if equals(operation, "or") {
        Comp::MOrD
    } else {
        return fail(
            DiagnosticKind::UnknownOperation,
            instruction,
            prefixed("Invalid 2-operand arithemtic/logical instruction ", operation),
        );
    };
    let mut e = Emitter::new();
    e.binary(comp);
    assert(e.code() =~= binary(comp));
    done(e)
}

/// The assembly for `neg` and `not`.
pub fn generate_1op(instruction: &Instruction) -> (r: Result<String, Diagnostic>)
    ensures
        renders(r, unary_operation(instruction@)),
{
    let operation = instruction.operation.as_str();
    let comp = if equals(operation, "neg") {
        Comp::NegM
    } else if equals(operation, "not") {
        Comp::NotM
    } else {
        return fail(
            DiagnosticKind::UnknownOperation,
            instruction,
            quote("Invalid 1-operand logical instruction '", operation, "'"),
        );
    };
    let mut e = Emitter::new();
    e.unary(comp);
    assert(e.code() =~= unary(comp));
    done(e)
}

/// The name of a label of the comparison `instruction`: its module, `mark`, its position.
fn comparison_label(instruction: &Instruction, mark: &str) -> (s: String)
    ensures
        s@ == instruction@.module + mark@ + decimal(instruction@.index),
{
    let mut s = instruction.module.clone();
    s.append(mark);
    s.append(numeral(instruction.index).as_str());
    s
}

/// The assembly for `eq`, `gt` and `lt`.
pub fn generate_cmp(instruction: &Instruction) -> (r: Result<String, Diagnostic>)
    ensures
        renders(r, comparison_operation(instruction@)),
{
    let operation = instruction.operation.as_str();
    let jump = if equals(operation, "eq") {
        Jump::Jeq
    } else if equals(operation, "gt") {
        Jump::Jgt
    } else if equals(operation, "lt") {
        Jump::Jlt
    } else {
        return fail(
            DiagnosticKind::UnknownOperation,
            instruction,
            quote("Invalid logical comparison instruction '", operation, "'"),
        );
    };
    let hit = comparison_label(instruction, "$true.");
    let end = comparison_label(instruction, "$done.");
    let mut e = Emitter::new();
    e.comparison(jump, hit.as_str(), end.as_str());
    assert(e.code() =~= comparison(jump, hit@, end@));
    done(e)
}

} // verus!
