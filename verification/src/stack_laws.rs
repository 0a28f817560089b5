//! What the generated code does to the stack, proved on the machine model
//! for the instructions that run straight through: memory access and
//! arithmetic.
//!
//! The stack is taken to lie above the machine's sixteen registers: the
//! stack pointer, cell 0, holds an address of 16 or more.

use crate::arithmetic::{binary_comp, binary_operation, unary_comp, unary_operation};
use crate::assembly::{
    assign, load, load_number, register_address, Comp, Dest, Line, Operand, Register,
};
use crate::instruction::{DiagnosticView, InstructionView};
use crate::machine::{
    group_run, lemma_run_concat, lemma_straight_concat, operand_value, run, straight, wrap, Machine,
    Symbols,
};
use crate::memory::{
    base_register, memory_access, pointer_register, segment_of, static_symbol, temp_register,
    Segment, MAX_OFFSET,
};
use crate::templates::{
    binary, pop_d, pop_direct, pop_indirect, push_d, read_constant, read_direct, read_indirect,
    unary, TEMP_BASE, TEMP_SIZE,
};
use crate::text::parse_unsigned;
use vstd::prelude::*;

verus! {

/// The first address above the registers.
pub open spec fn registers_end() -> int {
    16
}

/// The stack pointer of `m`.
pub open spec fn stack_pointer(m: Machine) -> u16 {
    m.ram[0]
}

/// What a binary operator makes of `lower`, pushed first, and `upper`, pushed second.
pub open spec fn operator(operation: Seq<char>, lower: u16, upper: u16) -> u16 {
    if operation == "add"@ {
        wrap(lower + upper)
    } else if operation == "sub"@ {
        wrap(lower - upper)
    } else if operation == "and"@ {
        lower & upper
    } else {
        lower | upper
    }
}

/// What a unary operator makes of `x`.
pub open spec fn unary_operator(operation: Seq<char>, x: u16) -> u16 {
    if operation == "neg"@ {
        wrap(-x)
    } else {
        !x
    }
}

/// The cell that `offset` addresses in `segment`, seen from the module
/// `module`, in state `m`. The `constant` segment has no cells.
pub open spec fn addressed_cell(
    segment: Segment,
    offset: nat,
    module: Seq<char>,
    m: Machine,
    symbols: Symbols,
) -> u16 {
    match segment {
        Segment::Constant => 0,
        Segment::Argument => wrap(m.ram[2] + offset),
        Segment::Local => wrap(m.ram[1] + offset),
        Segment::This => wrap(m.ram[3] + offset),
        Segment::That => wrap(m.ram[4] + offset),
        Segment::Static => symbols[static_symbol(module, offset)],
        Segment::Temp => wrap(TEMP_BASE + offset),
        Segment::Pointer => wrap(register_address(pointer_register(offset)) as int),
    }
}

/// What a push from cell `offset` of `segment` puts on the stack: the
/// number itself for `constant`, and what the cell holds for the others.
pub open spec fn pushed_value(
    segment: Segment,
    offset: nat,
    module: Seq<char>,
    m: Machine,
    symbols: Symbols,
) -> u16 {
    match segment {
        Segment::Constant => wrap(offset as int),
        _ => m.ram[addressed_cell(segment, offset, module, m, symbols)],
    }
}

/// The number that a memory-access instruction gives as its second argument.
pub open spec fn offset_of(i: InstructionView) -> nat
    recommends
        memory_access(i) is Ok,
{
    parse_unsigned(i.arg2->0, MAX_OFFSET as nat)->0
}

/// The segment that a memory-access instruction names.
pub open spec fn segment_in(i: InstructionView) -> Segment
    recommends
        memory_access(i) is Ok,
{
    segment_of(i.arg1->0)->0
}

/// The cell that a memory-access instruction addresses in state `m`.
pub open spec fn cell_of(i: InstructionView, m: Machine, symbols: Symbols) -> u16
    recommends
        memory_access(i) is Ok,
{
    addressed_cell(segment_in(i), offset_of(i), i.module, m, symbols)
}

/// Whether cell `offset` of `segment` exists.
pub open spec fn in_segment(segment: Segment, offset: nat) -> bool {
    &&& offset <= MAX_OFFSET
    &&& segment is Temp ==> offset < TEMP_SIZE
    &&& segment is Pointer ==> offset <= 1
}

/// The listing that loads cell `offset` of `segment` into `D`.
pub open spec fn read_listing(segment: Segment, offset: nat, module: Seq<char>) -> Seq<Line> {
    match segment {
        Segment::Constant => read_constant(offset),
        Segment::Argument | Segment::Local | Segment::This | Segment::That => read_indirect(
            base_register(segment)->0,
            offset,
        ),
        Segment::Static => read_direct(Operand::Symbol(static_symbol(module, offset))),
        Segment::Temp => read_direct(Operand::Register(temp_register(offset))),
        Segment::Pointer => read_direct(Operand::Register(pointer_register(offset))),
    }
}

/// The listing that pushes cell `offset` of `segment`.
pub open spec fn push_listing(segment: Segment, offset: nat, module: Seq<char>) -> Seq<Line> {
    read_listing(segment, offset, module) + push_d()
}

/// The listing that pops into cell `offset` of `segment`.
pub open spec fn pop_listing(segment: Segment, offset: nat, module: Seq<char>) -> Seq<Line> {
    match segment {
        Segment::Constant => Seq::empty(),
        Segment::Argument | Segment::Local | Segment::This | Segment::That => pop_indirect(
            base_register(segment)->0,
            offset,
        ),
        Segment::Static => pop_direct(Operand::Symbol(static_symbol(module, offset))),
        Segment::Temp => pop_direct(Operand::Register(temp_register(offset))),
        Segment::Pointer => pop_direct(Operand::Register(pointer_register(offset))),
    }
}

/// A valid `push` instruction names a cell that exists, and translates to
/// the listing that pushes it.
pub proof fn lemma_push_is_push_listing(push: InstructionView)
    requires
        push.operation == "push"@,
        memory_access(push) is Ok,
    ensures
        push.arg1 is Some,
        segment_of(push.arg1->0) is Some,
        in_segment(segment_in(push), offset_of(push)),
        memory_access(push) == Ok::<Seq<Line>, DiagnosticView>(
            push_listing(segment_in(push), offset_of(push), push.module),
        ),
{
}

/// A valid `pop` instruction names a cell that exists, in a segment other
/// than `constant`, and translates to the listing that pops into it.
pub proof fn lemma_pop_is_pop_listing(pop: InstructionView)
    requires
        pop.operation == "pop"@,
        memory_access(pop) is Ok,
    ensures
        pop.arg1 is Some,
        segment_of(pop.arg1->0) is Some,
        !(segment_in(pop) is Constant),
        in_segment(segment_in(pop), offset_of(pop)),
        memory_access(pop) == Ok::<Seq<Line>, DiagnosticView>(
            pop_listing(segment_in(pop), offset_of(pop), pop.module),
        ),
{
    reveal_strlit("push");
    reveal_strlit("pop");
}

/// Pushing `D` puts it in the cell that the stack pointer addressed and
/// moves the stack pointer up by one; no other cell changes.
pub proof fn lemma_push_d(m: Machine, symbols: Symbols)
    requires
        stack_pointer(m) != 0,
    ensures
        straight(push_d()),
        run(m, push_d(), symbols).ram == m.ram.insert(0, wrap(stack_pointer(m) + 1)).insert(
            stack_pointer(m),
            m.d,
        ),
        run(m, push_d(), symbols).d == m.d,
{
    broadcast use group_run;

}

/// Popping into `D` moves the stack pointer down by one and loads the cell
/// it then addresses; no other cell changes.
pub proof fn lemma_pop_d(m: Machine, symbols: Symbols)
    requires
        stack_pointer(m) != 1,
    ensures
        straight(pop_d()),
        run(m, pop_d(), symbols).ram == m.ram.insert(0, wrap(stack_pointer(m) - 1)),
        run(m, pop_d(), symbols).d == m.ram[wrap(stack_pointer(m) - 1)],
        run(m, pop_d(), symbols).a == wrap(stack_pointer(m) - 1),
{
    broadcast use group_run;

}

/// Pushing cell `offset` of `segment` puts what is pushed in the cell that
/// the stack pointer addressed and moves the stack pointer up by one; no
/// other cell changes.
#[verifier::rlimit(40)]
pub proof fn lemma_push_listing(
    segment: Segment,
    offset: nat,
    module: Seq<char>,
    m: Machine,
    symbols: Symbols,
)
    requires
        in_segment(segment, offset),
        stack_pointer(m) != 0,
    ensures
        straight(push_listing(segment, offset, module)),
        run(m, push_listing(segment, offset, module), symbols).ram == m.ram.insert(
            0,
            wrap(stack_pointer(m) + 1),
        ).insert(stack_pointer(m), pushed_value(segment, offset, module, m, symbols)),
{
    broadcast use group_run;

    let reading = read_listing(segment, offset, module);
    let loaded = run(m, reading, symbols);
    assert(straight(reading));
    assert(loaded.ram == m.ram);
    assert(loaded.d == pushed_value(segment, offset, module, m, symbols));
    lemma_push_d(loaded, symbols);
}

/// Popping into a cell that has an address of its own moves the stack
/// pointer down by one and stores what was on top in that cell.
pub proof fn lemma_pop_direct(cell: Operand, m: Machine, symbols: Symbols)
    requires
        stack_pointer(m) != 1,
    ensures
        straight(pop_direct(cell)),
        run(m, pop_direct(cell), symbols).ram == m.ram.insert(
            0,
            wrap(stack_pointer(m) - 1),
        ).insert(operand_value(cell, symbols), m.ram[wrap(stack_pointer(m) - 1)]),
{
    broadcast use group_run;

    lemma_pop_d(m, symbols);
}

/// Popping into a segment cell moves the stack pointer down by one and
/// stores what was on top in the cell at the segment's base plus the
/// offset; `R13` is left holding that cell's address.
#[verifier::rlimit(40)]
pub proof fn lemma_pop_indirect(base: Register, offset: nat, m: Machine, symbols: Symbols)
    requires
        !(base is General),
        offset < 0x10000,
        wrap(stack_pointer(m) - 1) >= registers_end(),
    ensures
        straight(pop_indirect(base, offset)),
        ({
            let cell = wrap(m.ram[wrap(register_address(base) as int)] + offset);
            let top = m.ram[wrap(stack_pointer(m) - 1)];
            run(m, pop_indirect(base, offset), symbols).ram == m.ram.insert(13, cell).insert(
                0,
                wrap(stack_pointer(m) - 1),
            ).insert(cell, top)
        }),
{
    broadcast use group_run;

    let first = Seq::empty().push(load(base)).push(assign(Dest::D, Comp::M)).push(
        load_number(offset),
    ).push(assign(Dest::D, Comp::DPlusA)).push(load(Register::General(13))).push(
        assign(Dest::M, Comp::D),
    );
    let cell = wrap(m.ram[wrap(register_address(base) as int)] + offset);
    let kept = run(m, first, symbols);
    assert(kept.ram == m.ram.insert(13, cell));
    lemma_pop_d(kept, symbols);
}

/// Popping to cell `offset` of `segment` stores what was on top of the
/// stack in that cell. Unless that cell is the stack pointer itself, the
/// stack pointer ends one lower. Besides these two cells only the scratch
/// register `R13` can change.
pub proof fn lemma_pop_listing(
    segment: Segment,
    offset: nat,
    module: Seq<char>,
    m: Machine,
    symbols: Symbols,
)
    requires
        !(segment is Constant),
        in_segment(segment, offset),
        wrap(stack_pointer(m) - 1) >= registers_end(),
    ensures
        straight(pop_listing(segment, offset, module)),
        ({
            let cell = addressed_cell(segment, offset, module, m, symbols);
            let end = run(m, pop_listing(segment, offset, module), symbols);
            &&& end.ram[cell] == m.ram[wrap(stack_pointer(m) - 1)]
            &&& cell != 0 ==> stack_pointer(end) == wrap(stack_pointer(m) - 1)
            &&& forall|c: u16| c != 0 && c != 13 && c != cell ==> end.ram[c] == m.ram[c]
        }),
{
    match segment {
        Segment::Constant => {},
        Segment::Argument | Segment::Local | Segment::This | Segment::That => {
            lemma_pop_indirect(base_register(segment)->0, offset, m, symbols);
        },
        Segment::Static => {
            lemma_pop_direct(Operand::Symbol(static_symbol(module, offset)), m, symbols);
        },
        Segment::Temp => {
            lemma_pop_direct(Operand::Register(temp_register(offset)), m, symbols);
        },
        Segment::Pointer => {
            lemma_pop_direct(Operand::Register(pointer_register(offset)), m, symbols);
        },
    }
}

/// Every valid push leaves the stack pointer one higher, with the pushed
/// value in the cell below it, and changes no other cell.
pub proof fn lemma_push(push: InstructionView, m: Machine, symbols: Symbols)
    requires
        push.operation == "push"@,
        memory_access(push) is Ok,
        stack_pointer(m) >= registers_end(),
    ensures
        straight(memory_access(push)->Ok_0),
        ({
            let sp = stack_pointer(m);
            let end = run(m, memory_access(push)->Ok_0, symbols);
            &&& stack_pointer(end) == wrap(sp + 1)
            &&& end.ram[sp] == pushed_value(segment_in(push), offset_of(push), push.module, m, symbols)
            &&& forall|c: u16| c != 0 && c != sp ==> end.ram[c] == m.ram[c]
        }),
{
    lemma_push_is_push_listing(push);
    lemma_push_listing(segment_in(push), offset_of(push), push.module, m, symbols);
}

/// Every valid pop writes the value on top of the stack to the cell it
/// names and, unless that cell is the stack pointer itself, leaves the
/// stack pointer one lower. Besides these two cells only the scratch
/// register `R13` can change.
pub proof fn lemma_pop(pop: InstructionView, m: Machine, symbols: Symbols)
    requires
        pop.operation == "pop"@,
        memory_access(pop) is Ok,
        stack_pointer(m) >= registers_end() + 1,
    ensures
        straight(memory_access(pop)->Ok_0),
        ({
            let sp = stack_pointer(m);
            let cell = cell_of(pop, m, symbols);
            let end = run(m, memory_access(pop)->Ok_0, symbols);
            &&& end.ram[cell] == m.ram[(sp - 1) as u16]
            &&& cell != 0 ==> stack_pointer(end) == sp - 1
            &&& forall|c: u16| c != 0 && c != 13 && c != cell ==> end.ram[c] == m.ram[c]
        }),
{
    lemma_pop_is_pop_listing(pop);
    lemma_pop_listing(segment_in(pop), offset_of(pop), pop.module, m, symbols);
}

/// A constant that is pushed and at once popped to a cell ends up in that
/// cell, and the stack pointer is where it was before the push. This holds
/// where the stack lies above the registers and the cell popped to is not
/// the stack pointer itself. Unless the cell is one of the segment
/// pointers, the segment and the offset address the same cell afterwards
/// as before.
#[verifier::rlimit(40)]
pub proof fn lemma_push_constant_then_pop(
    push: InstructionView,
    pop: InstructionView,
    m: Machine,
    symbols: Symbols,
)
    requires
        push.operation == "push"@,
        push.arg1 == Some("constant"@),
        pop.operation == "pop"@,
        memory_access(push) is Ok,
        memory_access(pop) is Ok,
        stack_pointer(m) >= registers_end(),
        cell_of(pop, m, symbols) != 0,
    ensures
        straight(memory_access(push)->Ok_0 + memory_access(pop)->Ok_0),
        ({
            let end = run(m, memory_access(push)->Ok_0 + memory_access(pop)->Ok_0, symbols);
            &&& end.ram[cell_of(pop, m, symbols)] == offset_of(push)
            &&& stack_pointer(end) == stack_pointer(m)
            &&& cell_of(pop, m, symbols) > 4 ==> cell_of(pop, end, symbols) == cell_of(
                pop,
                m,
                symbols,
            )
        }),
{
    let value = offset_of(push);
    let segment = segment_in(pop);
    let offset = offset_of(pop);
    let pushing = push_listing(Segment::Constant, value, push.module);
    let popping = pop_listing(segment, offset, pop.module);
    lemma_push_is_push_listing(push);
    lemma_pop_is_pop_listing(pop);
    lemma_push_listing(Segment::Constant, value, push.module, m, symbols);
    let pushed = run(m, pushing, symbols);
    lemma_pop_listing(segment, offset, pop.module, pushed, symbols);
    lemma_run_concat(m, pushing, popping, symbols);
    lemma_straight_concat(pushing, popping);
    assert(addressed_cell(segment, offset, pop.module, pushed, symbols) == cell_of(
        pop,
        m,
        symbols,
    ));
}

/// A binary operator takes two cells off the stack and puts one on it: the
/// stack pointer ends one lower, and the cell below it holds the operator
/// applied to the lower and the upper operand, in this order. No other cell
/// changes.
pub proof fn lemma_binary_operator(i: InstructionView, m: Machine, symbols: Symbols)
    requires
        binary_comp(i.operation) is Some,
        stack_pointer(m) >= registers_end() + 2,
    ensures
        binary_operation(i) is Ok,
        straight(binary_operation(i)->Ok_0),
        ({
            let sp = stack_pointer(m);
            let lower = m.ram[(sp - 2) as u16];
            let upper = m.ram[(sp - 1) as u16];
            let end = run(m, binary_operation(i)->Ok_0, symbols);
            &&& stack_pointer(end) == sp - 1
            &&& end.ram[(sp - 2) as u16] == operator(i.operation, lower, upper)
            &&& forall|c: u16| c != 0 && c != sp - 2 ==> end.ram[c] == m.ram[c]
        }),
{
    broadcast use group_run;

    let comp = binary_comp(i.operation)->0;
    let sp = stack_pointer(m);
    let lower = m.ram[(sp - 2) as u16];
    let upper = m.ram[(sp - 1) as u16];
    lemma_pop_d(m, symbols);
    let popped = run(m, pop_d(), symbols);
    let end = run(m, binary(comp), symbols);
    assert(end.ram == popped.ram.insert((sp - 2) as u16, operator(i.operation, lower, upper))) by {
        reveal_strlit("add");
        reveal_strlit("sub");
        reveal_strlit("and");
        reveal_strlit("or");
        assert(lower & upper == upper & lower) by (bit_vector);
        assert(lower | upper == upper | lower) by (bit_vector);
    }
}

/// A unary operator changes the cell on top of the stack in place: the
/// stack pointer and every other cell stay as they are.
pub proof fn lemma_unary_operator(i: InstructionView, m: Machine, symbols: Symbols)
    requires
        unary_comp(i.operation) is Some,
        stack_pointer(m) >= registers_end() + 1,
    ensures
        unary_operation(i) is Ok,
        straight(unary_operation(i)->Ok_0),
        ({
            let top = (stack_pointer(m) - 1) as u16;
            let end = run(m, unary_operation(i)->Ok_0, symbols);
            end.ram == m.ram.insert(top, unary_operator(i.operation, m.ram[top]))
        }),
{
    broadcast use group_run;

    reveal_strlit("neg");
    reveal_strlit("not");
}

/// Two constants that are pushed and then combined by a binary operator
/// leave one cell more on the stack than there was, and it holds the
/// operator applied to the first and the second constant, in this order.
pub proof fn lemma_operate_on_constants(
    first: InstructionView,
    second: InstructionView,
    operation: InstructionView,
    m: Machine,
    symbols: Symbols,
)
    requires
        first.operation == "push"@,
        first.arg1 == Some("constant"@),
        second.operation == "push"@,
        second.arg1 == Some("constant"@),
        memory_access(first) is Ok,
        memory_access(second) is Ok,
        binary_comp(operation.operation) is Some,
        stack_pointer(m) >= registers_end(),
        stack_pointer(m) + 2 < 0x10000,
    ensures
        ({
            let code = memory_access(first)->Ok_0 + memory_access(second)->Ok_0
                + binary_operation(operation)->Ok_0;
            let end = run(m, code, symbols);
            &&& straight(code)
            &&& stack_pointer(end) == stack_pointer(m) + 1
            &&& end.ram[stack_pointer(m)] == operator(
                operation.operation,
                offset_of(first) as u16,
                offset_of(second) as u16,
            )
        }),
{
    let one = memory_access(first)->Ok_0;
    let two = memory_access(second)->Ok_0;
    let three = binary_operation(operation)->Ok_0;
    lemma_push_is_push_listing(first);
    lemma_push_is_push_listing(second);
    lemma_push(first, m, symbols);
    let m1 = run(m, one, symbols);
    lemma_push(second, m1, symbols);
    let m2 = run(m1, two, symbols);
    lemma_binary_operator(operation, m2, symbols);
    lemma_run_concat(m, one, two, symbols);
    lemma_straight_concat(one, two);
    lemma_run_concat(m, one + two, three, symbols);
    lemma_straight_concat(one + two, three);
}

} // verus!
