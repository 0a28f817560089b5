//! The function-linkage generator: `function`, `call` and `return`.
//!
//! A call saves the caller's frame on the stack: the return address, then
//! `LCL`, `ARG`, `THIS` and `THAT`. Each call site has a return label of its
//! own, written `<module>$<frame>$ret.<index>`.

use crate::assembly::{Emitter, Line};
use crate::branching::frame_text;
use crate::instruction::{
    diagnostic, frame_name, Diagnostic, DiagnosticKind, DiagnosticView, Instruction,
    InstructionView,
};
use crate::outcome::{done, fail, numeral, prefixed, quote, quoted, renders};
use crate::templates::{call, function_entry, return_to_caller};
use crate::text::{decimal, equals, parse_number, parse_unsigned};
use vstd::prelude::*;
use vstd::string::*;

verus! {

/// The label behind the call at position `index` of `module`, made in the frame `frame`.
pub open spec fn return_label(module: Seq<char>, frame: Option<Seq<char>>, index: nat) -> Seq<
    char,
> {
    module + "$"@ + frame_name(frame) + "$ret."@ + decimal(index)
}

/// What a `function` instruction translates to.
pub open spec fn function_declaration(i: InstructionView) -> Result<Seq<Line>, DiagnosticView> {
    match i.arg1 {
        None => Err(
            diagnostic(DiagnosticKind::MissingArgument, i, "Missing function name argument"@),
        ),
        Some(name) => match i.arg2 {
            None => Err(
                diagnostic(
                    DiagnosticKind::MissingArgument,
                    i,
                    "Missing n_vars argument for function"@,
                ),
            ),
            Some(text) => match parse_unsigned(text, usize::MAX as nat) {
                None => Err(
                    diagnostic(
                        DiagnosticKind::InvalidArgument,
                        i,
                        quoted("Invalid n_vars argument for function, '"@, text, "'"@),
                    ),
                ),
                Some(locals) => Ok(function_entry(name, locals)),
            },
        },
    }
}

/// What a `call` instruction translates to.
pub open spec fn function_call(i: InstructionView) -> Result<Seq<Line>, DiagnosticView> {
    match i.arg1 {
        None => Err(
            diagnostic(
                DiagnosticKind::MissingArgument,
                i,
                "Missing function name argument to call"@,
            ),
        ),
        Some(name) => match i.arg2 {
            None => Err(
                diagnostic(
                    DiagnosticKind::MissingArgument,
                    i,
                    "Missing n_args argument for function call"@,
                ),
            ),
            Some(text) => match parse_unsigned(text, usize::MAX as nat) {
                None => Err(
                    diagnostic(
                        DiagnosticKind::InvalidArgument,
                        i,
                        "Invalid n_args argument for function call, '"@ + text,
                    ),
                ),
                Some(args) => Ok(call(name, args, return_label(i.module, i.frame, i.index))),
            },
        },
    }
}

/// What `function`, `call` and `return` translate to.
pub open spec fn linkage(i: InstructionView) -> Result<Seq<Line>, DiagnosticView> {
    if i.operation == "function"@ {
        function_declaration(i)
    } else if i.operation == "call"@ {
        function_call(i)
    } else if i.operation == "return"@ {
        Ok(return_to_caller())
    } else {
        Err(
            diagnostic(
                DiagnosticKind::UnknownOperation,
                i,
                quoted("Invalid functions instruction '"@, i.operation, "'"@),
            ),
        )
    }
}

fn generate_function(instruction: &Instruction) -> (r: Result<String, Diagnostic>)
    ensures
        renders(r, function_declaration(instruction@)),
{
    let name = match &instruction.arg1 {
        Some(name) => name.as_str(),
        None => {
            return fail(
                DiagnosticKind::MissingArgument,
                instruction,
                "Missing function name argument".to_owned(),
            );
        },
    };
    let text = match &instruction.arg2 {
        Some(text) => text.as_str(),
        None => {
            return fail(
                DiagnosticKind::MissingArgument,
                instruction,
                "Missing n_vars argument for function".to_owned(),
            );
        },
    };
    match parse_number(text, usize::MAX) {
        None => fail(
            DiagnosticKind::InvalidArgument,
            instruction,
            quote("Invalid n_vars argument for function, '", text, "'"),
        ),
        Some(locals) => {
            let mut e = Emitter::new();
            e.function_entry(name, locals);
            assert(e.code() =~= function_entry(name@, locals as nat));
            done(e)
        },
    }
}

fn generate_call(instruction: &Instruction) -> (r: Result<String, Diagnostic>)
    ensures
        renders(r, function_call(instruction@)),
{
    let name = match &instruction.arg1 {
        Some(name) => name.as_str(),
        None => {
            return fail(
                DiagnosticKind::MissingArgument,
                instruction,
                "Missing function name argument to call".to_owned(),
            );
        },
    };
    let text = match &instruction.arg2 {
        Some(text) => text.as_str(),
        None => {
            return fail(
                DiagnosticKind::MissingArgument,
                instruction,
                "Missing n_args argument for function call".to_owned(),
            );
        },
    };
    match parse_number(text, usize::MAX) {
        None => fail(
            DiagnosticKind::InvalidArgument,
            instruction,
            prefixed("Invalid n_args argument for function call, '", text),
        ),
        Some(args) => {
            let mut back = instruction.module.clone();
            back.append("$");
            back.append(frame_text(&instruction.frame));
            back.append("$ret.");
            back.append(numeral(instruction.index).as_str());
            assert(back@ =~= return_label(
                instruction@.module,
                instruction@.frame,
                instruction@.index,
            ));
            let mut e = Emitter::new();
            e.call(name, args, back.as_str());
            assert(e.code() =~= call(name@, args as nat, back@));
            done(e)
        },
    }
}

/// The assembly for `function`, `call` and `return`.
pub fn generate_functions(instruction: &Instruction) -> (r: Result<String, Diagnostic>)
    ensures
        renders(r, linkage(instruction@)),
{
    let operation = instruction.operation.as_str();
    if equals(operation, "function") {
        generate_function(instruction)
    } else if equals(operation, "call") {
        generate_call(instruction)
    } else if equals(operation, "return") {
        let mut e = Emitter::new();
        e.return_to_caller();
        assert(e.code() =~= return_to_caller());
        done(e)
    } else {
        fail(
            DiagnosticKind::UnknownOperation,
            instruction,
            quote("Invalid functions instruction '", operation, "'"),
        )
    }
}

} // verus!
