//! The memory-access generator: `push` and `pop` on the eight segments.
//!
//! A push first loads the addressed value into `D` and then pushes `D`; a
//! pop takes the top of the stack and stores it in the addressed cell.
//! Offsets are unsigned 8-bit decimal numbers.

use crate::assembly::{render, Emitter, Line, Operand, Register};
use crate::instruction::{
    diagnostic, Diagnostic, DiagnosticKind, DiagnosticView, Instruction, InstructionView,
};
use crate::outcome::{done, fail, numeral, quote, quoted, renders};
use crate::templates::{
    pop_direct, pop_indirect, push_d, read_constant, read_direct, read_indirect, Cell, TEMP_BASE,
    TEMP_SIZE,
};
use crate::text::{decimal, equals, parse_number, parse_unsigned};
use vstd::prelude::*;
use vstd::string::*;

verus! {

/// The largest offset that can be written.
pub const MAX_OFFSET: usize = 255;

/// The two memory operations.
#[derive(Clone, Copy, Debug, PartialEq, Eq, Structural)]
pub enum MemOpType {
    Push,
    Pop,
}

/// The eight segments.
#[derive(Clone, Copy, Debug, PartialEq, Eq, Structural)]
pub enum Segment {
    Constant,
    Argument,
    Local,
    This,
    That,
    Static,
    Temp,
    Pointer,
}

/// The memory operation that a mnemonic names.
pub open spec fn mem_op_of(operation: Seq<char>) -> Option<MemOpType> {
    if operation == "push"@ {
        Some(MemOpType::Push)
    } else if operation == "pop"@ {
        Some(MemOpType::Pop)
    } else {
        None
    }
}

/// The segment that a name names.
pub open spec fn segment_of(name: Seq<char>) -> Option<Segment> {
    if name == "constant"@ {
        Some(Segment::Constant)
    } else if name == "argument"@ {
        Some(Segment::Argument)
    } else if name == "local"@ {
        Some(Segment::Local)
    } else if name == "this"@ {
        Some(Segment::This)
    } else if name == "that"@ {
        Some(Segment::That)
    } else if name == "static"@ {
        Some(Segment::Static)
    } else if name == "temp"@ {
        Some(Segment::Temp)
    } else if name == "pointer"@ {
        Some(Segment::Pointer)
    } else {
        None
    }
}

/// The register that holds the base address of a segment, for the four
/// segments that are addressed through one.
pub open spec fn base_register(segment: Segment) -> Option<Register> {
    match segment {
        Segment::Argument => Some(Register::Arg),
        Segment::Local => Some(Register::Lcl),
        Segment::This => Some(Register::This),
        Segment::That => Some(Register::That),
        _ => None,
    }
}

/// The base register of the segment that `name` names, if it names one that has one.
pub open spec fn base_of(name: Seq<char>) -> Option<Register> {
    match segment_of(name) {
        Some(segment) => base_register(segment),
        None => None,
    }
}

/// The variable that holds cell `offset` of the static segment of `module`.
pub open spec fn static_symbol(module: Seq<char>, offset: nat) -> Seq<char> {
    module + "."@ + decimal(offset)
}

/// The register that holds cell `offset` of the temp segment.
pub open spec fn temp_register(offset: nat) -> Register
    recommends
        offset < TEMP_SIZE,
{
    Register::General((TEMP_BASE + offset) as u8)
}

/// The register that cell `offset` of the pointer segment is.
pub open spec fn pointer_register(offset: nat) -> Register
    recommends
        offset <= 1,
{
    if offset == 0 {
        Register::This
    } else {
        Register::That
    }
}

/// The message on a segment name that is refused.
pub open spec fn invalid_segment(name: Seq<char>) -> Seq<char> {
    quoted("Invalid segment argument '"@, name, "'"@)
}

/// The message on an offset that is refused for a segment.
pub open spec fn invalid_offset(text: Seq<char>, segment: Seq<char>) -> Seq<char> {
    quoted("Invalid 2nd argument '"@, text, "' to "@) + segment + " segment"@
}

/// The listing for `opt` on the cell `cell`, without the final push of a `push`.
pub open spec fn direct_access(opt: MemOpType, cell: Operand) -> Seq<Line> {
    match opt {
        MemOpType::Push => read_direct(cell),
        MemOpType::Pop => pop_direct(cell),
    }
}

/// The listing for `opt` on cell `offset` of the segment based at `base`,
/// without the final push of a `push`.
pub open spec fn indirect_access(opt: MemOpType, base: Register, offset: nat) -> Seq<Line> {
    match opt {
        MemOpType::Push => read_indirect(base, offset),
        MemOpType::Pop => pop_indirect(base, offset),
    }
}

/// Access to `argument`, `local`, `this` and `that`: the cell at the
/// segment's base address plus the offset.
pub open spec fn segment_access(opt: MemOpType, i: InstructionView) -> Result<
    Seq<Line>,
    DiagnosticView,
> {
    match i.arg1 {
        None => Err(diagnostic(DiagnosticKind::MissingArgument, i, "Missing segment argument"@)),
        Some(name) => match base_of(name) {
            None => Err(diagnostic(DiagnosticKind::InvalidSegment, i, invalid_segment(name))),
            Some(base) => match i.arg2 {
                None => Err(
                    diagnostic(DiagnosticKind::MissingArgument, i, "Missing 2nd argument"@),
                ),
                Some(text) => match parse_unsigned(text, MAX_OFFSET as nat) {
                    None => Err(
                        diagnostic(
                            DiagnosticKind::InvalidArgument,
                            i,
                            invalid_offset(text, name),
                        ),
                    ),
                    Some(offset) => Ok(indirect_access(opt, base, offset)),
                },
            },
        },
    }
}

/// Access to `static`: the variable `<module>.<offset>`.
pub open spec fn static_access(opt: MemOpType, i: InstructionView) -> Result<
    Seq<Line>,
    DiagnosticView,
> {
    match i.arg2 {
        None => Err(diagnostic(DiagnosticKind::MissingArgument, i, "Missing 2nd argument"@)),
        Some(text) => match parse_unsigned(text, MAX_OFFSET as nat) {
            None => Err(
                diagnostic(DiagnosticKind::InvalidArgument, i, invalid_offset(text, "static"@)),
            ),
            Some(offset) => Ok(
                direct_access(opt, Operand::Symbol(static_symbol(i.module, offset))),
            ),
        },
    }
}

/// Access to `temp`: offsets 0 to 7 are the registers `R5` to `R12`.
pub open spec fn temp_access(opt: MemOpType, i: InstructionView) -> Result<
    Seq<Line>,
    DiagnosticView,
> {
    match i.arg2 {
        None => Err(
            diagnostic(
                DiagnosticKind::MissingArgument,
                i,
                "Missing 2nd argument to temp segment"@,
            ),
        ),
        Some(text) => match parse_unsigned(text, MAX_OFFSET as nat) {
            None => Err(
                diagnostic(DiagnosticKind::InvalidArgument, i, invalid_offset(text, "temp"@)),
            ),
            Some(offset) => if offset < TEMP_SIZE {
                Ok(direct_access(opt, Operand::Register(temp_register(offset))))
            } else {
                Err(
                    diagnostic(
                        DiagnosticKind::InvalidArgument,
                        i,
                        invalid_offset(decimal(offset), "temp"@),
                    ),
                )
            },
        },
    }
}

/// Access to `pointer`: offset 0 is `THIS`, offset 1 is `THAT`.
pub open spec fn pointer_access(opt: MemOpType, i: InstructionView) -> Result<
    Seq<Line>,
    DiagnosticView,
> {
    match i.arg2 {
        None => Err(
            diagnostic(
                DiagnosticKind::MissingArgument,
                i,
                "Missing 2nd argument to pointer segment"@,
            ),
        ),
        Some(text) => match parse_unsigned(text, MAX_OFFSET as nat) {
            None => Err(
                diagnostic(DiagnosticKind::InvalidArgument, i, invalid_offset(text, "pointer"@)),
            ),
            Some(offset) => if offset <= 1 {
                Ok(direct_access(opt, Operand::Register(pointer_register(offset))))
            } else {
                Err(
                    diagnostic(
                        DiagnosticKind::InvalidArgument,
                        i,
                        invalid_offset(decimal(offset), "pointer"@),
                    ),
                )
            },
        },
    }
}

/// Access to `constant`: a push loads the number itself; there is nothing to pop to.
pub open spec fn constant_access(opt: MemOpType, i: InstructionView) -> Result<
    Seq<Line>,
    DiagnosticView,
> {
    match opt {
        MemOpType::Pop => Err(
            diagnostic(DiagnosticKind::InvalidSegment, i, invalid_segment("constant"@)),
        ),
        MemOpType::Push => match i.arg2 {
            None => Err(diagnostic(DiagnosticKind::MissingArgument, i, "Missing 2nd argument"@)),
            Some(text) => match parse_unsigned(text, MAX_OFFSET as nat) {
                None => Err(
                    diagnostic(
                        DiagnosticKind::InvalidArgument,
                        i,
                        invalid_offset(text, "constant"@),
                    ),
                ),
                Some(value) => Ok(read_constant(value)),
            },
        },
    }
}

/// The access listing for the segment `segment`.
pub open spec fn access(opt: MemOpType, segment: Segment, i: InstructionView) -> Result<
    Seq<Line>,
    DiagnosticView,
> {
    match segment {
        Segment::Constant => constant_access(opt, i),
        Segment::Argument | Segment::Local | Segment::This | Segment::That => segment_access(
            opt,
            i,
        ),
        Segment::Static => static_access(opt, i),
        Segment::Temp => temp_access(opt, i),
        Segment::Pointer => pointer_access(opt, i),
    }
}

/// A push ends by pushing `D`; a pop is complete as it is.
pub open spec fn complete(opt: MemOpType, code: Seq<Line>) -> Seq<Line> {
    match opt {
        MemOpType::Push => code + push_d(),
        MemOpType::Pop => code,
    }
}

/// What a `push` or `pop` instruction translates to. The checks come in
/// this order: the mnemonic, both arguments being there, the segment, the
/// offset.
pub open spec fn memory_access(i: InstructionView) -> Result<Seq<Line>, DiagnosticView> {
    match mem_op_of(i.operation) {
        None => Err(
            diagnostic(
                DiagnosticKind::UnknownOperation,
                i,
                quoted("Invalid memmory operation instruction '"@, i.operation, "'"@),
            ),
        ),
        Some(opt) => if i.arg1 is None || i.arg2 is None {
            Err(
                diagnostic(
                    DiagnosticKind::MissingArgument,
                    i,
                    "Memory operation instruction requires two parameters"@,
                ),
            )
        } else {
            match segment_of(i.arg1->0) {
                None => Err(
                    diagnostic(DiagnosticKind::InvalidSegment, i, invalid_segment(i.arg1->0)),
                ),
                Some(segment) => match access(opt, segment, i) {
                    Ok(code) => Ok(complete(opt, code)),
                    Err(d) => Err(d),
                },
            }
        },
    }
}

/// The segment that `name` names.
pub fn segment_named(name: &str) -> (s: Option<Segment>)
    ensures
        s == segment_of(name@),
{
    if equals(name, "constant") {
        Some(Segment::Constant)
    } else if equals(name, "argument") {
        Some(Segment::Argument)
    } else if equals(name, "local") {
        Some(Segment::Local)
    } else if equals(name, "this") {
        Some(Segment::This)
    } else if equals(name, "that") {
        Some(Segment::That)
    } else if equals(name, "static") {
        Some(Segment::Static)
    } else if equals(name, "temp") {
        Some(Segment::Temp)
    } else if equals(name, "pointer") {
        Some(Segment::Pointer)
    } else {
        None
    }
}

fn invalid_segment_message(name: &str) -> (s: String)
    ensures
        s@ == invalid_segment(name@),
{
    quote("Invalid segment argument '", name, "'")
}

fn invalid_offset_message(text: &str, segment: &str) -> (s: String)
    ensures
        s@ == invalid_offset(text@, segment@),
{
    let mut s = quote("Invalid 2nd argument '", text, "' to ");
    s.append(segment);
    s.append(" segment");
    assert(s@ =~= invalid_offset(text@, segment@));
    s
}

/// Writes the access listing for a cell that has an address of its own.
fn direct(opt: MemOpType, cell: &Cell) -> (r: Result<String, Diagnostic>)
    requires
        cell.wf(),
    ensures
        r matches Ok(text) && text@ == render(direct_access(opt, cell.operand())),
{
    let mut e = Emitter::new();
    match opt {
        MemOpType::Push => e.read_direct(cell),
        MemOpType::Pop => e.pop_direct(cell),
    }
    assert(e.code() =~= direct_access(opt, cell.operand()));
    done(e)
}

/// The code for a push or pop on one of the segments `argument`, `local`,
/// `this` and `that`. For a push it loads the addressed value into `D`.
pub fn segment_fmt(opt: MemOpType, instruction: &Instruction) -> (r: Result<String, Diagnostic>)
    ensures
        renders(r, segment_access(opt, instruction@)),
{
    let name = match &instruction.arg1 {
        Some(name) => name.as_str(),
        None => {
            return fail(
                DiagnosticKind::MissingArgument,
                instruction,
                "Missing segment argument".to_owned(),
            );
        },
    };
    let base = match segment_named(name) {
        Some(Segment::Argument) => Register::Arg,
        Some(Segment::Local) => Register::Lcl,
        Some(Segment::This) => Register::This,
        Some(Segment::That) => Register::That,
        _ => {
            return fail(
                DiagnosticKind::InvalidSegment,
                instruction,
                invalid_segment_message(name),
            );
        },
    };
    let text = match &instruction.arg2 {
        Some(text) => text.as_str(),
        None => {
            return fail(
                DiagnosticKind::MissingArgument,
                instruction,
                "Missing 2nd argument".to_owned(),
            );
        },
    };
    match parse_number(text, MAX_OFFSET) {
        None => fail(
            DiagnosticKind::InvalidArgument,
            instruction,
            invalid_offset_message(text, name),
        ),
        Some(offset) => {
            let mut e = Emitter::new();
            match opt {
                MemOpType::Push => e.read_indirect(base, offset),
                MemOpType::Pop => e.pop_indirect(base, offset),
            }
            assert(e.code() =~= indirect_access(opt, base, offset as nat));
            done(e)
        },
    }
}

/// The code for a push or pop on the `static` segment.
pub fn static_fmt(opt: MemOpType, instruction: &Instruction) -> (r: Result<String, Diagnostic>)
    ensures
        renders(r, static_access(opt, instruction@)),
{
    let text = match &instruction.arg2 {
        Some(text) => text.as_str(),
        None => {
            return fail(
                DiagnosticKind::MissingArgument,
                instruction,
                "Missing 2nd argument".to_owned(),
            );
        },
    };
    match parse_number(text, MAX_OFFSET) {
        None => fail(
            DiagnosticKind::InvalidArgument,
            instruction,
            invalid_offset_message(text, "static"),
        ),
        Some(offset) => {
            let mut symbol = instruction.module.clone();
            symbol.append(".");
            symbol.append(numeral(offset).as_str());
            assert(symbol@ =~= static_symbol(instruction@.module, offset as nat));
            direct(opt, &Cell::Variable(symbol))
        },
    }
}

/// The code for a push or pop on the `temp` segment.
pub fn temp_fmt(opt: MemOpType, instruction: &Instruction) -> (r: Result<String, Diagnostic>)
    ensures
        renders(r, temp_access(opt, instruction@)),
{
    let text = match &instruction.arg2 {
        Some(text) => text.as_str(),
        None => {
            return fail(
                DiagnosticKind::MissingArgument,
                instruction,
                "Missing 2nd argument to temp segment".to_owned(),
            );
        },
    };
    match parse_number(text, MAX_OFFSET) {
        None => fail(
            DiagnosticKind::InvalidArgument,
            instruction,
            invalid_offset_message(text, "temp"),
        ),
        Some(offset) => {
            if offset < TEMP_SIZE as usize {
                let register = Register::General(TEMP_BASE + offset as u8);
                direct(opt, &Cell::Named(register))
            } else {
                fail(
                    DiagnosticKind::InvalidArgument,
                    instruction,
                    invalid_offset_message(numeral(offset).as_str(), "temp"),
                )
            }
        },
    }
}

/// The code for a push or pop on the `pointer` segment.
pub fn pointer_fmt(opt: MemOpType, instruction: &Instruction) -> (r: Result<String, Diagnostic>)
    ensures
        renders(r, pointer_access(opt, instruction@)),
{
    let text = match &instruction.arg2 {
        Some(text) => text.as_str(),
        None => {
            return fail(
                DiagnosticKind::MissingArgument,
                instruction,
                "Missing 2nd argument to pointer segment".to_owned(),
            );
        },
    };
    match parse_number(text, MAX_OFFSET) {
        None => fail(
            DiagnosticKind::InvalidArgument,
            instruction,
            invalid_offset_message(text, "pointer"),
        ),
        Some(offset) => {
            if offset == 0 {
                direct(opt, &Cell::Named(Register::This))
            } else if offset == 1 {
                direct(opt, &Cell::Named(Register::That))
            } else {
                fail(
                    DiagnosticKind::InvalidArgument,
                    instruction,
                    invalid_offset_message(numeral(offset).as_str(), "pointer"),
                )
            }
        },
    }
}

/// The code for a push of a constant, up to the push of `D`; there is no pop to a constant.
fn constant_fmt(opt: MemOpType, instruction: &Instruction) -> (r: Result<String, Diagnostic>)
    ensures
        renders(r, constant_access(opt, instruction@)),
{
    match opt {
        MemOpType::Pop => fail(
            DiagnosticKind::InvalidSegment,
            instruction,
            invalid_segment_message("constant"),
        ),
        MemOpType::Push => {
            let text = match &instruction.arg2 {
                Some(text) => text.as_str(),
                None => {
                    return fail(
                        DiagnosticKind::MissingArgument,
                        instruction,
                        "Missing 2nd argument".to_owned(),
                    );
                },
            };
            match parse_number(text, MAX_OFFSET) {
                None => fail(
                    DiagnosticKind::InvalidArgument,
                    instruction,
                    invalid_offset_message(text, "constant"),
                ),
                Some(value) => {
                    let mut e = Emitter::new();
                    e.read_constant(value);
                    assert(e.code() =~= read_constant(value as nat));
                    done(e)
                },
            }
        },
    }
}

/// The assembly for a `push` or `pop` instruction.
pub fn generate_memop(instruction: &Instruction) -> (r: Result<String, Diagnostic>)
    ensures
        renders(r, memory_access(instruction@)),
{
    let opt = if equals(instruction.operation.as_str(), "push") {
        MemOpType::Push
    } else if equals(instruction.operation.as_str(), "pop") {
        MemOpType::Pop
    } else {
        return fail(
            DiagnosticKind::UnknownOperation,
            instruction,
            quote("Invalid memmory operation instruction '", instruction.operation.as_str(), "'"),
        );
    };
    let name = match (&instruction.arg1, &instruction.arg2) {
        (Some(name), Some(_)) => name.as_str(),
        _ => {
            return fail(
                DiagnosticKind::MissingArgument,
                instruction,
                "Memory operation instruction requires two parameters".to_owned(),
            );
        },
    };
    let ghost segment = segment_of(name@);
    let fetched = match segment_named(name) {
        Some(Segment::Constant) => constant_fmt(opt, instruction),
        Some(Segment::Argument) | Some(Segment::Local) | Some(Segment::This) | Some(
            Segment::That,
        ) => segment_fmt(opt, instruction),
        Some(Segment::Static) => static_fmt(opt, instruction),
        Some(Segment::Temp) => temp_fmt(opt, instruction),
        Some(Segment::Pointer) => pointer_fmt(opt, instruction),
        None => {
            return fail(
                DiagnosticKind::InvalidSegment,
                instruction,
                invalid_segment_message(name),
            );
        },
    };
    match fetched {
        Err(d) => Err(d),
        Ok(text) => match opt {
            MemOpType::Pop => Ok(text),
            MemOpType::Push => {
                let ghost code = access(opt, segment->0, instruction@)->Ok_0;
                let mut e = Emitter::resume(text, Ghost(code));
                e.push_d();
                done(e)
            },
        },
    }
}

} // verus!
