//! The calling convention, proved on the machine model: what a call leaves
//! on the stack, what a function finds when it starts, and what a return
//! gives back to the caller.
//!
//! A frame is the five cells that a call pushes: the return address and the
//! caller's `LCL`, `ARG`, `THIS` and `THAT`. While a function runs, `LCL`
//! holds the address just above its frame and `ARG` the address of its
//! first argument.

use crate::arithmetic::{binary_comp, jump_of, unary_comp};
use crate::assembly::{
    assign, branch, load, load_number, load_symbol, register_address, Comp, Dest, Jump, Line,
    Operand, Register,
};
use crate::collision_laws::{
    group_unlabelled, lemma_frames_unlabelled, lemma_labels_of_call, lemma_memory_access_unlabelled,
    lemma_no_labels, lemma_zeros_unlabelled, unlabelled,
};
use crate::control_laws::{lemma_line_of, lemma_part_runs};
use crate::execution::{
    landing, lemma_address_bound, lemma_jump_to_label, lemma_reaches_next, lemma_reaches_trans,
    next, occurs, reaches, resolves, State,
};
use crate::instruction::{DiagnosticView, InstructionView};
use crate::linkage::{function_call, function_declaration, linkage, return_label};
use crate::machine::{
    group_run, lemma_run_concat, lemma_run_push, lemma_straight_concat, lemma_straight_push, run,
    straight, wrap, Machine, Symbols,
};
use crate::memory::{mem_op_of, memory_access};
use crate::resolution_laws::{
    labels_in, lemma_labels_concat, lemma_labels_push, lemma_resolvable, symbols_of,
};
use crate::stack_laws::{
    lemma_pop_d, lemma_push, lemma_push_d, lemma_push_is_push_listing, offset_of, registers_end,
    stack_pointer,
};
use crate::templates::{
    bootstrap, bootstrap_return, call, call_frame, define_label, entry_point, function_entry,
    hand_back, keep_frame, pop_d, push_d, push_frame, push_zero, read_direct, reposition, restore,
    restore_pointers, return_frame, return_to_caller, save, zeros, STACK_BASE,
};
use crate::text::parse_unsigned;
use crate::translate::{fragment, is_branching, is_linkage, listed, translation};
use vstd::prelude::*;

verus! {

/// The number of cells in a frame.
pub open spec fn frame_size() -> int {
    5
}

/// The memory after a call with `args` arguments that is to return to the
/// address `back`: the frame is pushed, `ARG` addresses the first argument,
/// and `LCL` and the stack pointer address the cell above the frame.
pub open spec fn frame_saved(ram: Map<u16, u16>, back: u16, args: nat) -> Map<u16, u16> {
    let sp = ram[0];
    ram.insert(sp, back).insert((sp + 1) as u16, ram[1]).insert((sp + 2) as u16, ram[2]).insert(
        (sp + 3) as u16,
        ram[3],
    ).insert((sp + 4) as u16, ram[4]).insert(0, (sp + 5) as u16).insert(
        2,
        (sp - args) as u16,
    ).insert(1, (sp + 5) as u16)
}

/// The address that the frame below `LCL` says to return to.
pub open spec fn return_address(ram: Map<u16, u16>) -> u16 {
    ram[(ram[1] - 5) as u16]
}

/// The memory after a return: the value that was on top of the stack is
/// where the first argument was, the stack pointer addresses the cell above
/// it, and the four segment pointers are those that the frame kept. `R13`
/// and `R14` were used as scratch cells.
pub open spec fn frame_restored(ram: Map<u16, u16>) -> Map<u16, u16> {
    let frame = ram[1];
    let arg = ram[2];
    let result = ram[(ram[0] - 1) as u16];
    ram.insert(14, return_address(ram)).insert(arg, result).insert(0, (arg + 1) as u16).insert(
        4,
        ram[(frame - 1) as u16],
    ).insert(3, ram[(frame - 2) as u16]).insert(2, ram[(frame - 3) as u16]).insert(
        1,
        ram[(frame - 4) as u16],
    ).insert(13, (frame - 4) as u16)
}

/// Whether the frame below `LCL` and the arguments below it lie above the
/// registers, with something on the stack to return.
pub open spec fn can_return(ram: Map<u16, u16>) -> bool {
    &&& ram[0] >= registers_end() + 1
    &&& ram[2] >= registers_end()
    &&& ram[2] + frame_size() <= ram[1]
}

/// The number of arguments that a `call` instruction passes.
pub open spec fn args_of(i: InstructionView) -> nat
    recommends
        function_call(i) is Ok,
{
    parse_unsigned(i.arg2->0, usize::MAX as nat)->0
}

/// The number of local cells that a `function` instruction opens.
pub open spec fn locals_of(i: InstructionView) -> nat
    recommends
        function_declaration(i) is Ok,
{
    parse_unsigned(i.arg2->0, usize::MAX as nat)->0
}

/// Pushing a register's cell.
pub proof fn lemma_save(r: Register, m: Machine, symbols: Symbols)
    requires
        !(r is General),
        stack_pointer(m) >= registers_end(),
    ensures
        straight(save(r)),
        run(m, save(r), symbols).ram == m.ram.insert(0, wrap(stack_pointer(m) + 1)).insert(
            stack_pointer(m),
            m.ram[wrap(register_address(r) as int)],
        ),
{
    broadcast use group_run;

    let loaded = run(m, read_direct(Operand::Register(r)), symbols);
    assert(loaded.ram == m.ram);
    lemma_push_d(loaded, symbols);
}

/// Pointing `ARG` and `LCL` for the function that is called.
pub proof fn lemma_reposition(args: nat, m: Machine, symbols: Symbols)
    requires
        args + frame_size() <= stack_pointer(m),
    ensures
        straight(reposition(args)),
        run(m, reposition(args), symbols).ram == m.ram.insert(
            2,
            (stack_pointer(m) - args - 5) as u16,
        ).insert(1, stack_pointer(m)),
{
    broadcast use group_run;

}

/// Running two listings in a row, and whether the two in a row are straight.
pub proof fn lemma_then(m: Machine, a: Seq<Line>, b: Seq<Line>, symbols: Symbols)
    ensures
        run(m, a + b, symbols) == run(run(m, a, symbols), b, symbols),
        straight(a + b) == (straight(a) && straight(b)),
{
    lemma_run_concat(m, a, b, symbols);
    lemma_straight_concat(a, b);
}

/// The memory after the frame of a call is pushed.
pub open spec fn frame_pushed(ram: Map<u16, u16>, back: u16) -> Map<u16, u16> {
    let sp = ram[0];
    ram.insert(sp, back).insert((sp + 1) as u16, ram[1]).insert((sp + 2) as u16, ram[2]).insert(
        (sp + 3) as u16,
        ram[3],
    ).insert((sp + 4) as u16, ram[4]).insert(0, (sp + 5) as u16)
}

proof fn lemma_load_back(back: Seq<char>, m: Machine, symbols: Symbols)
    ensures
        ({
            let start = Seq::empty().push(load_symbol(back)).push(assign(Dest::D, Comp::A));
            &&& straight(start)
            &&& run(m, start, symbols) == Machine { a: symbols[back], d: symbols[back], ram: m.ram }
        }),
{
    broadcast use group_run;

}

/// Pushing the frame of a call.
#[verifier::rlimit(40)]
pub proof fn lemma_push_frame(back: Seq<char>, m: Machine, symbols: Symbols)
    requires
        stack_pointer(m) >= registers_end(),
        stack_pointer(m) + frame_size() < 0x10000,
    ensures
        straight(push_frame(back)),
        run(m, push_frame(back), symbols).ram == frame_pushed(m.ram, symbols[back]),
{
    let sp = stack_pointer(m);
    let a0 = Seq::empty().push(load_symbol(back)).push(assign(Dest::D, Comp::A));
    let a1 = a0 + push_d();
    let a2 = a1 + save(Register::Lcl);
    let a3 = a2 + save(Register::Arg);
    let a4 = a3 + save(Register::This);
    let a5 = a4 + save(Register::That);
    lemma_load_back(back, m, symbols);
    let m0 = run(m, a0, symbols);
    lemma_then(m, a0, push_d(), symbols);
    lemma_push_d(m0, symbols);
    let m1 = run(m, a1, symbols);
    assert(m1.ram == m.ram.insert(0, (sp + 1) as u16).insert(sp, symbols[back]));
    lemma_then(m, a1, save(Register::Lcl), symbols);
    lemma_save(Register::Lcl, m1, symbols);
    let m2 = run(m, a2, symbols);
    assert(m2.ram =~= m.ram.insert(sp, symbols[back]).insert((sp + 1) as u16, m.ram[1]).insert(
        0,
        (sp + 2) as u16,
    ));
    lemma_then(m, a2, save(Register::Arg), symbols);
    lemma_save(Register::Arg, m2, symbols);
    let m3 = run(m, a3, symbols);
    assert(m3.ram =~= m.ram.insert(sp, symbols[back]).insert((sp + 1) as u16, m.ram[1]).insert(
        (sp + 2) as u16,
        m.ram[2],
    ).insert(0, (sp + 3) as u16));
    lemma_then(m, a3, save(Register::This), symbols);
    lemma_save(Register::This, m3, symbols);
    let m4 = run(m, a4, symbols);
    assert(m4.ram =~= m.ram.insert(sp, symbols[back]).insert((sp + 1) as u16, m.ram[1]).insert(
        (sp + 2) as u16,
        m.ram[2],
    ).insert((sp + 3) as u16, m.ram[3]).insert(0, (sp + 4) as u16));
    lemma_then(m, a4, save(Register::That), symbols);
    lemma_save(Register::That, m4, symbols);
    let m5 = run(m, a5, symbols);
    assert(m5.ram =~= frame_pushed(m.ram, symbols[back]));
}

/// The straight part of a call pushes the frame and points `ARG` and `LCL`;
/// it ends with the address of the function in `A`.
pub proof fn lemma_call_frame(
    name: Seq<char>,
    args: nat,
    back: Seq<char>,
    m: Machine,
    symbols: Symbols,
)
    requires
        stack_pointer(m) >= registers_end() + args,
        stack_pointer(m) + frame_size() < 0x10000,
    ensures
        straight(call_frame(name, args, back)),
        run(m, call_frame(name, args, back), symbols).ram == frame_saved(
            m.ram,
            symbols[back],
            args,
        ),
        run(m, call_frame(name, args, back), symbols).a == symbols[name],
{
    lemma_push_frame(back, m, symbols);
    let pushed = run(m, push_frame(back), symbols);
    lemma_reposition(args, pushed, symbols);
    lemma_then(m, push_frame(back), reposition(args), symbols);
    let placed = run(m, push_frame(back) + reposition(args), symbols);
    assert(placed.ram =~= frame_saved(m.ram, symbols[back], args));
    lemma_run_push(m, push_frame(back) + reposition(args), load_symbol(name), symbols);
    lemma_straight_push(push_frame(back) + reposition(args), load_symbol(name));
}

/// Pushing zero.
pub proof fn lemma_push_zero(m: Machine, symbols: Symbols)
    requires
        stack_pointer(m) != 0,
    ensures
        straight(push_zero()),
        run(m, push_zero(), symbols).ram == m.ram.insert(0, wrap(stack_pointer(m) + 1)).insert(
            stack_pointer(m),
            0,
        ),
{
    broadcast use group_run;

}

/// Opening `count` local cells pushes that many zeros: the stack pointer
/// ends `count` higher, the cells in between hold zero, and no other cell
/// changes.
pub proof fn lemma_zeros(count: nat, m: Machine, symbols: Symbols)
    requires
        stack_pointer(m) >= registers_end(),
        stack_pointer(m) + count < 0x10000,
    ensures
        straight(zeros(count)),
        ({
            let sp = stack_pointer(m);
            let end = run(m, zeros(count), symbols);
            &&& stack_pointer(end) == sp + count
            &&& forall|c: u16| sp <= c < sp + count ==> end.ram[c] == 0
            &&& forall|c: u16| c != 0 && !(sp <= c < sp + count) ==> end.ram[c] == m.ram[c]
        }),
    decreases count,
{
    broadcast use group_run;

    if count > 0 {
        lemma_zeros((count - 1) as nat, m, symbols);
        let before = run(m, zeros((count - 1) as nat), symbols);
        lemma_push_zero(before, symbols);
    }
}

/// Keeping the frame's address and the return address leaves them in `R13` and `R14`.
pub proof fn lemma_keep_frame(m: Machine, symbols: Symbols)
    requires
        m.ram[1] >= registers_end() + frame_size(),
    ensures
        straight(keep_frame()),
        run(m, keep_frame(), symbols).ram == m.ram.insert(13, m.ram[1]).insert(
            14,
            return_address(m.ram),
        ),
{
    broadcast use group_run;

}

/// Handing the result back puts the top of the stack where `ARG` points and
/// the stack pointer just above it.
pub proof fn lemma_hand_back(m: Machine, symbols: Symbols)
    requires
        stack_pointer(m) >= registers_end() + 1,
        m.ram[2] >= registers_end(),
    ensures
        straight(hand_back()),
        run(m, hand_back(), symbols).ram == m.ram.insert(
            m.ram[2],
            m.ram[(stack_pointer(m) - 1) as u16],
        ).insert(0, wrap(m.ram[2] + 1)),
{
    broadcast use group_run;

    lemma_pop_d(m, symbols);
    let popped = run(m, pop_d(), symbols);
    let rest = Seq::empty().push(load(Register::Arg)).push(assign(Dest::A, Comp::M)).push(
        assign(Dest::M, Comp::D),
    ).push(load(Register::Arg)).push(assign(Dest::D, Comp::MPlusOne)).push(
        load(Register::Sp),
    ).push(assign(Dest::M, Comp::D));
    assert(hand_back() =~= pop_d() + rest);
    let end = run(popped, rest, symbols);
    assert(end.ram =~= m.ram.insert(m.ram[2], m.ram[(stack_pointer(m) - 1) as u16]).insert(
        0,
        wrap(m.ram[2] + 1),
    ));
}

/// Restoring a pointer moves `R13` down by one and copies the cell it then
/// addresses to the pointer's register.
pub proof fn lemma_restore(r: Register, m: Machine, symbols: Symbols)
    requires
        !(r is General),
        m.ram[13] >= registers_end() + 1,
    ensures
        straight(restore(r)),
        run(m, restore(r), symbols).ram == m.ram.insert(13, (m.ram[13] - 1) as u16).insert(
            wrap(register_address(r) as int),
            m.ram[(m.ram[13] - 1) as u16],
        ),
{
    broadcast use group_run;

}

/// The memory after the caller's pointers are restored from the frame
/// below the address in `R13`.
pub open spec fn pointers_restored(ram: Map<u16, u16>) -> Map<u16, u16> {
    let frame = ram[13];
    ram.insert(4, ram[(frame - 1) as u16]).insert(3, ram[(frame - 2) as u16]).insert(
        2,
        ram[(frame - 3) as u16],
    ).insert(1, ram[(frame - 4) as u16]).insert(13, (frame - 4) as u16)
}

/// Restoring the caller's four pointers.
#[verifier::rlimit(40)]
pub proof fn lemma_restore_pointers(m: Machine, symbols: Symbols)
    requires
        m.ram[13] >= registers_end() + 4,
    ensures
        straight(restore_pointers()),
        run(m, restore_pointers(), symbols).ram == pointers_restored(m.ram),
{
    let frame = m.ram[13];
    let a1 = restore(Register::That);
    let a2 = a1 + restore(Register::This);
    let a3 = a2 + restore(Register::Arg);
    let a4 = a3 + restore(Register::Lcl);
    lemma_restore(Register::That, m, symbols);
    let m1 = run(m, a1, symbols);
    lemma_then(m, a1, restore(Register::This), symbols);
    lemma_restore(Register::This, m1, symbols);
    let m2 = run(m, a2, symbols);
    assert(m2.ram =~= m.ram.insert(4, m.ram[(frame - 1) as u16]).insert(
        3,
        m.ram[(frame - 2) as u16],
    ).insert(13, (frame - 2) as u16));
    lemma_then(m, a2, restore(Register::Arg), symbols);
    lemma_restore(Register::Arg, m2, symbols);
    let m3 = run(m, a3, symbols);
    assert(m3.ram =~= m.ram.insert(4, m.ram[(frame - 1) as u16]).insert(
        3,
        m.ram[(frame - 2) as u16],
    ).insert(2, m.ram[(frame - 3) as u16]).insert(13, (frame - 3) as u16));
    lemma_then(m, a3, restore(Register::Lcl), symbols);
    lemma_restore(Register::Lcl, m3, symbols);
    let m4 = run(m, a4, symbols);
    assert(m4.ram =~= pointers_restored(m.ram));
}

/// The straight part of a return hands the result back and restores the
/// caller's pointers; it ends with the return address in `A`.
pub proof fn lemma_return_frame(m: Machine, symbols: Symbols)
    requires
        can_return(m.ram),
    ensures
        straight(return_frame()),
        run(m, return_frame(), symbols).ram == frame_restored(m.ram),
        run(m, return_frame(), symbols).a == return_address(m.ram),
{
    let a1 = keep_frame();
    let a2 = a1 + hand_back();
    let a3 = a2 + restore_pointers();
    let a4 = a3.push(load(Register::General(14)));
    lemma_keep_frame(m, symbols);
    let m1 = run(m, a1, symbols);
    lemma_then(m, a1, hand_back(), symbols);
    lemma_hand_back(m1, symbols);
    let m2 = run(m, a2, symbols);
    lemma_then(m, a2, restore_pointers(), symbols);
    lemma_restore_pointers(m2, symbols);
    let m3 = run(m, a3, symbols);
    assert(m3.ram =~= frame_restored(m.ram));
    lemma_run_push(m, a3, load(Register::General(14)), symbols);
    lemma_straight_push(a3, load(Register::General(14)));
    lemma_run_push(m, a4, assign(Dest::A, Comp::M), symbols);
    lemma_straight_push(a4, assign(Dest::A, Comp::M));
}

/// A valid `function` instruction opens its local cells: the stack pointer
/// ends as many cells higher as it has locals, and these cells hold zero.
pub proof fn lemma_function_entry(i: InstructionView, m: Machine, symbols: Symbols)
    requires
        function_declaration(i) is Ok,
        stack_pointer(m) >= registers_end(),
        stack_pointer(m) + locals_of(i) < 0x10000,
    ensures
        straight(function_declaration(i)->Ok_0),
        ({
            let sp = stack_pointer(m);
            let end = run(m, function_declaration(i)->Ok_0, symbols);
            &&& stack_pointer(end) == sp + locals_of(i)
            &&& forall|c: u16| sp <= c < sp + locals_of(i) ==> end.ram[c] == 0
            &&& forall|c: u16| c != 0 && !(sp <= c < sp + locals_of(i)) ==> end.ram[c] == m.ram[c]
        }),
{
    broadcast use group_run;

    lemma_zeros(locals_of(i), m, symbols);
}

/// The listing of a call pushes the frame, points `ARG` at the first
/// argument and `LCL` at the top of the stack, and goes on behind the label
/// of the function it calls. Its last line is its return label.
#[verifier::rlimit(40)]
pub proof fn lemma_call_listing(
    name: Seq<char>,
    args: nat,
    back: Seq<char>,
    code: Seq<Line>,
    k: int,
    q: int,
    m: Machine,
    symbols: Symbols,
)
    requires
        occurs(code, call(name, args, back), k),
        0 <= q < code.len(),
        code[q] == Line::Label(name),
        resolves(code, symbols),
        stack_pointer(m) >= registers_end() + args,
        stack_pointer(m) + frame_size() < 0x10000,
    ensures
        ({
            let prepared = run(m, call_frame(name, args, back), symbols);
            &&& reaches(
                code,
                State { machine: m, at: k },
                State { machine: prepared, at: q + 1 },
                symbols,
            )
            &&& prepared.ram == frame_saved(m.ram, symbols[back], args)
            &&& code[k + call(name, args, back).len() - 1] == Line::Label(back)
        }),
{
    let prefix = call_frame(name, args, back);
    let fragment = call(name, args, back);
    let n = prefix.len() as int;
    assert(fragment.subrange(0, n) =~= prefix);
    assert(fragment[n] == branch(Comp::Zero, Jump::Jmp));
    assert(fragment[n + 1] == Line::Label(back));
    lemma_call_frame(name, args, back, m, symbols);
    lemma_part_runs(code, fragment, k, 0, n, prefix, m, symbols);
    lemma_line_of(code, fragment, k, n);
    lemma_line_of(code, fragment, k, n + 1);
    let prepared = run(m, prefix, symbols);
    let s0 = State { machine: m, at: k };
    let s1 = State { machine: prepared, at: k + n };
    let s2 = State { machine: prepared, at: landing(code, symbols[name] as nat) };
    let s3 = State { machine: prepared, at: q + 1 };
    assert(next(code, s1, symbols) == s2);
    lemma_reaches_next(code, s1, symbols);
    lemma_jump_to_label(code, name, q, prepared, symbols);
    lemma_reaches_trans(code, s0, s1, s2, symbols);
    lemma_reaches_trans(code, s0, s2, s3, symbols);
}

/// A valid call pushes the frame, points `ARG` at the first argument and
/// `LCL` at the top of the stack, and goes on behind the label of the
/// function it calls. The last line of the call is its return label.
pub proof fn lemma_call(
    i: InstructionView,
    code: Seq<Line>,
    k: int,
    q: int,
    m: Machine,
    symbols: Symbols,
)
    requires
        function_call(i) is Ok,
        occurs(code, function_call(i)->Ok_0, k),
        0 <= q < code.len(),
        code[q] == Line::Label(i.arg1->0),
        resolves(code, symbols),
        stack_pointer(m) >= registers_end() + args_of(i),
        stack_pointer(m) + frame_size() < 0x10000,
    ensures
        ({
            let back = return_label(i.module, i.frame, i.index);
            let prepared = run(m, call_frame(i.arg1->0, args_of(i), back), symbols);
            &&& reaches(
                code,
                State { machine: m, at: k },
                State { machine: prepared, at: q + 1 },
                symbols,
            )
            &&& prepared.ram == frame_saved(m.ram, symbols[back], args_of(i))
            &&& code[k + function_call(i)->Ok_0.len() - 1] == Line::Label(back)
        }),
{
    lemma_call_listing(
        i.arg1->0,
        args_of(i),
        return_label(i.module, i.frame, i.index),
        code,
        k,
        q,
        m,
        symbols,
    );
}

/// Every translated program starts by setting the stack pointer to the
/// stack's base and calling the entry point: from its first line the
/// machine gets behind the label of the entry point, wherever in the
/// program that is, with the bootstrap's frame on the stack.
#[verifier::rlimit(40)]
pub proof fn lemma_bootstrap(code: Seq<Line>, q: int, m: Machine, symbols: Symbols)
    requires
        occurs(code, bootstrap(), 0),
        0 <= q < code.len(),
        code[q] == Line::Label(entry_point()),
        resolves(code, symbols),
    ensures
        exists|end: Machine|
            {
                &&& #[trigger] reaches(
                    code,
                    State { machine: m, at: 0 },
                    State { machine: end, at: q + 1 },
                    symbols,
                )
                &&& stack_pointer(end) == STACK_BASE + frame_size()
                &&& end.ram[1] == STACK_BASE + frame_size()
                &&& end.ram[2] == STACK_BASE
                &&& end.ram[STACK_BASE as u16] == symbols[bootstrap_return()]
            },
{
    let start = Seq::empty().push(Line::Comment("bootstrap"@)).push(
        load_number(STACK_BASE as nat),
    ).push(assign(Dest::D, Comp::A)).push(load(Register::Sp)).push(assign(Dest::M, Comp::D));
    let calling = call(entry_point(), 0, bootstrap_return());
    let whole = bootstrap();
    let cl = calling.len() as int;
    assert(whole.len() == cl + 6);
    assert(whole.subrange(0, 5) =~= start);
    assert(whole.subrange(5, 5 + cl) =~= calling);
    assert(code.subrange(5, 5 + cl) =~= code.subrange(0, whole.len() as int).subrange(5, 5 + cl));
    let based = run(m, start, symbols);
    assert(straight(start) && based.ram == m.ram.insert(0, STACK_BASE as u16)) by {
        broadcast use group_run;

    }
    lemma_part_runs(code, whole, 0, 0, 5, start, m, symbols);
    lemma_call_listing(entry_point(), 0, bootstrap_return(), code, 5, q, based, symbols);
    let end = run(based, call_frame(entry_point(), 0, bootstrap_return()), symbols);
    lemma_reaches_trans(
        code,
        State { machine: m, at: 0 },
        State { machine: based, at: 5 },
        State { machine: end, at: q + 1 },
        symbols,
    );
}

/// A return hands the value on top of the stack back to the caller,
/// restores the caller's pointers, and goes on behind the label whose
/// address the frame holds as the return address.
pub proof fn lemma_return(
    code: Seq<Line>,
    k: int,
    back: Seq<char>,
    r: int,
    m: Machine,
    symbols: Symbols,
)
    requires
        occurs(code, return_to_caller(), k),
        0 <= r < code.len(),
        code[r] == Line::Label(back),
        symbols[back] == return_address(m.ram),
        resolves(code, symbols),
        can_return(m.ram),
    ensures
        ({
            let returned = run(m, return_frame(), symbols);
            &&& reaches(
                code,
                State { machine: m, at: k },
                State { machine: returned, at: r + 1 },
                symbols,
            )
            &&& returned.ram == frame_restored(m.ram)
        }),
{
    let prefix = return_frame();
    let fragment = return_to_caller();
    let n = prefix.len() as int;
    assert(fragment.subrange(0, n) =~= prefix);
    assert(fragment[n] == branch(Comp::Zero, Jump::Jmp));
    lemma_return_frame(m, symbols);
    lemma_part_runs(code, fragment, k, 0, n, prefix, m, symbols);
    lemma_line_of(code, fragment, k, n);
    let returned = run(m, prefix, symbols);
    let s0 = State { machine: m, at: k };
    let s1 = State { machine: returned, at: k + n };
    let s2 = State { machine: returned, at: landing(code, symbols[back] as nat) };
    let s3 = State { machine: returned, at: r + 1 };
    assert(next(code, s1, symbols) == s2);
    lemma_reaches_next(code, s1, symbols);
    lemma_jump_to_label(code, back, r, returned, symbols);
    lemma_reaches_trans(code, s0, s1, s2, symbols);
    lemma_reaches_trans(code, s0, s2, s3, symbols);
}

/// The state in which the body of a called function starts: the frame is
/// pushed, `ARG` and `LCL` are set, and the local cells are opened.
pub open spec fn entered(
    m: Machine,
    caller: InstructionView,
    opening: InstructionView,
    symbols: Symbols,
) -> Machine {
    run(
        run(
            m,
            call_frame(
                caller.arg1->0,
                args_of(caller),
                return_label(caller.module, caller.frame, caller.index),
            ),
            symbols,
        ),
        zeros(locals_of(opening)),
        symbols,
    )
}

/// Whether a function's body, which took the machine from `before` to
/// `after`, left `LCL`, `ARG` and the frame below `LCL` as they were, and
/// something on the stack to return.
pub open spec fn keeps_frame(before: Machine, after: Machine) -> bool {
    let frame = before.ram[1];
    &&& after.ram[1] == frame
    &&& after.ram[2] == before.ram[2]
    &&& forall|j: int|
        1 <= j <= 5 ==> after.ram[(frame - j) as u16] == before.ram[#[trigger] ((frame - j) as u16)]
    &&& after.ram[0] >= registers_end() + 1
}

/// A mnemonic of the linkage family belongs to no family before it.
proof fn lemma_linkage_family(operation: Seq<char>)
    requires
        is_linkage(operation),
    ensures
        mem_op_of(operation) is None,
        binary_comp(operation) is None,
        unary_comp(operation) is None,
        jump_of(operation) is None,
        !is_branching(operation),
        operation == "function"@ ==> operation != "call"@ && operation != "return"@,
        operation == "call"@ ==> operation != "return"@,
{
    reveal_strlit("push");
    reveal_strlit("pop");
    reveal_strlit("add");
    reveal_strlit("sub");
    reveal_strlit("and");
    reveal_strlit("or");
    reveal_strlit("neg");
    reveal_strlit("not");
    reveal_strlit("eq");
    reveal_strlit("gt");
    reveal_strlit("lt");
    reveal_strlit("label");
    reveal_strlit("goto");
    reveal_strlit("if-goto");
    reveal_strlit("function");
    reveal_strlit("call");
    reveal_strlit("return");
    assert("function"@[0] == 'f' && "call"@[0] == 'c' && "return"@[0] == 'r');
    assert("push"@[0] == 'p' && "pop"@[0] == 'p');
    assert("add"@[0] == 'a' && "sub"@[0] == 's' && "and"@[0] == 'a' && "or"@[0] == 'o');
    assert("neg"@[0] == 'n' && "not"@[0] == 'n');
    assert("eq"@[0] == 'e' && "gt"@[0] == 'g' && "lt"@[0] == 'l');
    assert("label"@[0] == 'l' && "goto"@[0] == 'g' && "if-goto"@[0] == 'i');
}

/// What the translator writes for a `call` instruction: the source line as
/// a comment, the call, an empty line.
proof fn lemma_listed_call(i: InstructionView)
    requires
        i.operation == "call"@,
        fragment(i) is Ok,
    ensures
        function_call(i) is Ok,
        listed(i) == (Seq::empty().push(Line::Comment(i.raw)) + function_call(i)->Ok_0).push(
            Line::Blank,
        ),
{
    lemma_linkage_family(i.operation);
    assert(translation(i) == linkage(i));
    assert(linkage(i) == function_call(i));
}

/// What the translator writes for a `function` instruction.
proof fn lemma_listed_function(i: InstructionView)
    requires
        i.operation == "function"@,
        fragment(i) is Ok,
    ensures
        function_declaration(i) is Ok,
        listed(i) == (Seq::empty().push(Line::Comment(i.raw)) + function_declaration(
            i,
        )->Ok_0).push(Line::Blank),
{
    lemma_linkage_family(i.operation);
    assert(translation(i) == linkage(i));
    assert(linkage(i) == function_declaration(i));
}

/// What the translator writes for a `return` instruction.
proof fn lemma_listed_return(i: InstructionView)
    requires
        i.operation == "return"@,
    ensures
        listed(i) == (Seq::empty().push(Line::Comment(i.raw)) + return_to_caller()).push(
            Line::Blank,
        ),
{
    lemma_linkage_family(i.operation);
    assert(translation(i) == linkage(i));
    assert(linkage(i) == Ok::<Seq<Line>, DiagnosticView>(return_to_caller()));
}

/// What the body of a called function finds: the frame just below `LCL`,
/// holding the return address and the caller's pointers, `ARG` at the first
/// argument, and the stack pointer above the local cells.
pub proof fn lemma_entered(
    m: Machine,
    caller: InstructionView,
    opening: InstructionView,
    symbols: Symbols,
)
    requires
        stack_pointer(m) >= registers_end() + args_of(caller),
        stack_pointer(m) + frame_size() + locals_of(opening) < 0x10000,
    ensures
        ({
            let sp = stack_pointer(m);
            let e = entered(m, caller, opening, symbols);
            let back = return_label(caller.module, caller.frame, caller.index);
            &&& e.ram[0] == sp + 5 + locals_of(opening)
            &&& e.ram[1] == sp + 5
            &&& e.ram[2] == sp - args_of(caller)
            &&& e.ram[sp] == symbols[back]
            &&& e.ram[(sp + 1) as u16] == m.ram[1]
            &&& e.ram[(sp + 2) as u16] == m.ram[2]
            &&& e.ram[(sp + 3) as u16] == m.ram[3]
            &&& e.ram[(sp + 4) as u16] == m.ram[4]
            &&& forall|c: u16| registers_end() <= c < sp ==> e.ram[c] == m.ram[c]
        }),
{
    let back = return_label(caller.module, caller.frame, caller.index);
    lemma_call_frame(caller.arg1->0, args_of(caller), back, m, symbols);
    let prepared = run(m, call_frame(caller.arg1->0, args_of(caller), back), symbols);
    lemma_zeros(locals_of(opening), prepared, symbols);
}

/// From a call to the first line of the body of the function it calls.
#[verifier::rlimit(40)]
proof fn lemma_enter_function(
    caller: InstructionView,
    code: Seq<Line>,
    k: int,
    q: int,
    m: Machine,
    symbols: Symbols,
)
    requires
        caller.operation == "call"@,
        fragment(caller) is Ok,
        occurs(code, listed(caller), k),
        0 <= q < code.len(),
        code[q] == Line::Label(caller.arg1->0),
        resolves(code, symbols),
        stack_pointer(m) >= registers_end() + args_of(caller),
        stack_pointer(m) + frame_size() < 0x10000,
    ensures
        ({
            let back = return_label(caller.module, caller.frame, caller.index);
            let prepared = run(m, call_frame(caller.arg1->0, args_of(caller), back), symbols);
            &&& reaches(
                code,
                State { machine: m, at: k },
                State { machine: prepared, at: q + 1 },
                symbols,
            )
            &&& listed(caller).len() >= 3
            &&& code[k + listed(caller).len() - 2] == Line::Label(back)
            &&& code[k + listed(caller).len() - 1] == Line::Blank
        }),
{
    let name = caller.arg1->0;
    let back = return_label(caller.module, caller.frame, caller.index);
    lemma_listed_call(caller);
    let calling = call(name, args_of(caller), back);
    let lc = listed(caller);
    let cl = calling.len() as int;
    assert(lc.len() == cl + 2);
    assert(lc.subrange(1, 1 + cl) =~= calling);
    assert(code.subrange(k + 1, k + 1 + cl) =~= code.subrange(k, k + lc.len()).subrange(
        1,
        1 + cl,
    ));
    lemma_line_of(code, lc, k, 0);
    lemma_line_of(code, lc, k, lc.len() - 1);
    let s0 = State { machine: m, at: k };
    let s1 = State { machine: m, at: k + 1 };
    assert(next(code, s0, symbols) == s1);
    lemma_reaches_next(code, s0, symbols);
    lemma_call(caller, code, k + 1, q, m, symbols);
    let prepared = run(m, call_frame(name, args_of(caller), back), symbols);
    lemma_reaches_trans(code, s0, s1, State { machine: prepared, at: q + 1 }, symbols);
}

/// From the first line of the body of a function to where its return jumps.
#[verifier::rlimit(40)]
proof fn lemma_through_function(
    opening: InstructionView,
    body: Seq<Line>,
    closing: InstructionView,
    code: Seq<Line>,
    q: int,
    x: Machine,
    symbols: Symbols,
)
    requires
        opening.operation == "function"@,
        closing.operation == "return"@,
        fragment(opening) is Ok,
        occurs(code, listed(opening) + body + listed(closing), q),
        straight(body),
        stack_pointer(x) >= registers_end(),
        stack_pointer(x) + locals_of(opening) < 0x10000,
        can_return(run(run(x, zeros(locals_of(opening)), symbols), body, symbols).ram),
    ensures
        ({
            let left = run(run(x, zeros(locals_of(opening)), symbols), body, symbols);
            &&& code[q + 1] == Line::Label(opening.arg1->0)
            &&& reaches(
                code,
                State { machine: x, at: q + 2 },
                State {
                    machine: run(left, return_frame(), symbols),
                    at: landing(code, return_address(left.ram) as nat),
                },
                symbols,
            )
        }),
{
    lemma_listed_function(opening);
    lemma_listed_return(closing);
    let callee = listed(opening) + body + listed(closing);
    let locals = zeros(locals_of(opening));
    let rf = return_frame();
    let left = run(run(x, locals, symbols), body, symbols);
    assert(callee[1] == Line::Label(opening.arg1->0));
    lemma_line_of(code, callee, q, 1);
    lemma_zeros(locals_of(opening), x, symbols);
    lemma_return_frame(left, symbols);
    let mid = locals.push(Line::Blank) + body + (Seq::empty().push(Line::Comment(closing.raw))
        + rf);
    let n = mid.len() as int;
    assert(callee.len() == n + 4);
    assert(callee.subrange(2, 2 + n) =~= mid);
    assert(callee[2 + n] == branch(Comp::Zero, Jump::Jmp));
    lemma_line_of(code, callee, q, 2 + n);
    assert(straight(mid) && run(x, mid, symbols) == run(left, rf, symbols)) by {
        broadcast use group_run;

    }
    lemma_part_runs(code, callee, q, 2, 2 + n, mid, x, symbols);
    let end = run(left, rf, symbols);
    let s2 = State { machine: x, at: q + 2 };
    let s3 = State { machine: end, at: q + 2 + n };
    let s4 = State { machine: end, at: landing(code, return_address(left.ram) as nat) };
    assert(next(code, s3, symbols) == s4);
    lemma_reaches_next(code, s3, symbols);
    lemma_reaches_trans(code, s2, s3, s4, symbols);
}

/// What a return gives back to the caller of a function whose body kept the frame.
proof fn lemma_given_back(
    m: Machine,
    caller: InstructionView,
    opening: InstructionView,
    left: Machine,
    symbols: Symbols,
)
    requires
        stack_pointer(m) >= registers_end() + args_of(caller),
        stack_pointer(m) + frame_size() + locals_of(opening) < 0x10000,
        keeps_frame(entered(m, caller, opening, symbols), left),
    ensures
        can_return(left.ram),
        return_address(left.ram) == symbols[return_label(
            caller.module,
            caller.frame,
            caller.index,
        )],
        ({
            let first = (stack_pointer(m) - args_of(caller)) as u16;
            let end = frame_restored(left.ram);
            &&& end[0] == first + 1
            &&& end[first] == left.ram[(left.ram[0] - 1) as u16]
            &&& end[1] == m.ram[1]
            &&& end[2] == m.ram[2]
            &&& end[3] == m.ram[3]
            &&& end[4] == m.ram[4]
            &&& forall|c: u16| registers_end() <= c < first ==> end[c] == left.ram[c]
        }),
{
    lemma_entered(m, caller, opening, symbols);
    let e = entered(m, caller, opening, symbols);
    let frame = e.ram[1];
    assert(left.ram[(frame - 1) as u16] == e.ram[(frame - 1) as u16]);
    assert(left.ram[(frame - 2) as u16] == e.ram[(frame - 2) as u16]);
    assert(left.ram[(frame - 3) as u16] == e.ram[(frame - 3) as u16]);
    assert(left.ram[(frame - 4) as u16] == e.ram[(frame - 4) as u16]);
    assert(left.ram[(frame - 5) as u16] == e.ram[(frame - 5) as u16]);
}

/// A call of a function comes back behind the call with the function's
/// result in place of its arguments. Whatever the body of the function
/// does, as long as it runs straight through and keeps the frame: when the
/// function returns, the machine stands behind the call, the stack pointer
/// is one above where the first argument was, the cell below it holds what
/// the body left on top of the stack, the caller's four segment pointers
/// are what they were before the call, and the caller's stack below the
/// arguments is as the body left it.
#[verifier::rlimit(40)]
pub proof fn lemma_call_and_return(
    caller: InstructionView,
    opening: InstructionView,
    body: Seq<Line>,
    closing: InstructionView,
    code: Seq<Line>,
    k: int,
    q: int,
    m: Machine,
    symbols: Symbols,
)
    requires
        caller.operation == "call"@,
        opening.operation == "function"@,
        closing.operation == "return"@,
        fragment(caller) is Ok,
        fragment(opening) is Ok,
        opening.arg1 == caller.arg1,
        occurs(code, listed(caller), k),
        occurs(code, listed(opening) + body + listed(closing), q),
        resolves(code, symbols),
        straight(body),
        stack_pointer(m) >= registers_end() + args_of(caller),
        stack_pointer(m) + frame_size() + locals_of(opening) < 0x10000,
        keeps_frame(
            entered(m, caller, opening, symbols),
            run(entered(m, caller, opening, symbols), body, symbols),
        ),
    ensures
        ({
            let first = (stack_pointer(m) - args_of(caller)) as u16;
            let left = run(entered(m, caller, opening, symbols), body, symbols);
            exists|end: Machine|
                {
                    &&& #[trigger] reaches(
                        code,
                        State { machine: m, at: k },
                        State { machine: end, at: k + listed(caller).len() },
                        symbols,
                    )
                    &&& stack_pointer(end) == first + 1
                    &&& end.ram[first] == left.ram[(left.ram[0] - 1) as u16]
                    &&& end.ram[1] == m.ram[1]
                    &&& end.ram[2] == m.ram[2]
                    &&& end.ram[3] == m.ram[3]
                    &&& end.ram[4] == m.ram[4]
                    &&& forall|c: u16|
                        registers_end() <= c < first ==> end.ram[c] == left.ram[c]
                }
        }),
{
    let back = return_label(caller.module, caller.frame, caller.index);
    let prepared = run(m, call_frame(caller.arg1->0, args_of(caller), back), symbols);
    let left = run(entered(m, caller, opening, symbols), body, symbols);
    let end = run(left, return_frame(), symbols);
    let len = listed(caller).len() as int;
    lemma_given_back(m, caller, opening, left, symbols);
    lemma_call_frame(caller.arg1->0, args_of(caller), back, m, symbols);
    lemma_listed_call(caller);
    lemma_through_function(opening, body, closing, code, q, prepared, symbols);
    lemma_enter_function(caller, code, k, q + 1, m, symbols);
    lemma_return_frame(left, symbols);
    let s0 = State { machine: m, at: k };
    let s2 = State { machine: prepared, at: q + 2 };
    let s4 = State { machine: end, at: landing(code, symbols[back] as nat) };
    let s5 = State { machine: end, at: k + len - 1 };
    let s6 = State { machine: end, at: k + len };
    lemma_reaches_trans(code, s0, s2, s4, symbols);
    lemma_jump_to_label(code, back, k + len - 2, end, symbols);
    lemma_reaches_trans(code, s0, s4, s5, symbols);
    assert(next(code, s5, symbols) == s6);
    lemma_reaches_next(code, s5, symbols);
    lemma_reaches_trans(code, s0, s5, s6, symbols);
    assert(reaches(code, s0, State { machine: end, at: k + listed(caller).len() }, symbols));
}

/// What the translator writes for a `push` instruction: the source line as
/// a comment, the push, an empty line; all of it runs straight through and
/// does what the push does.
proof fn lemma_listed_push(i: InstructionView, m: Machine, symbols: Symbols)
    requires
        i.operation == "push"@,
        fragment(i) is Ok,
    ensures
        memory_access(i) is Ok,
        straight(memory_access(i)->Ok_0) ==> straight(listed(i)),
        run(m, listed(i), symbols) == run(m, memory_access(i)->Ok_0, symbols),
{
    broadcast use group_run;

    let code = memory_access(i)->Ok_0;
    assert(translation(i) == memory_access(i));
    assert(listed(i) == (Seq::empty().push(Line::Comment(i.raw)) + code).push(Line::Blank));
}

/// A function that pushes a constant and returns gives that constant to
/// its caller: behind the call, the stack pointer is one above where the
/// first argument was (one above where it was before the call, for a call
/// without arguments), the cell below it holds the constant, the caller's
/// four segment pointers are what they were before the call, and so are
/// the cells of the caller's stack below the arguments.
#[verifier::rlimit(40)]
pub proof fn lemma_call_of_constant_function(
    caller: InstructionView,
    opening: InstructionView,
    pushing: InstructionView,
    closing: InstructionView,
    code: Seq<Line>,
    k: int,
    q: int,
    m: Machine,
    symbols: Symbols,
)
    requires
        caller.operation == "call"@,
        opening.operation == "function"@,
        pushing.operation == "push"@,
        pushing.arg1 == Some("constant"@),
        closing.operation == "return"@,
        fragment(caller) is Ok,
        fragment(opening) is Ok,
        fragment(pushing) is Ok,
        opening.arg1 == caller.arg1,
        occurs(code, listed(caller), k),
        occurs(code, listed(opening) + listed(pushing) + listed(closing), q),
        resolves(code, symbols),
        stack_pointer(m) >= registers_end() + args_of(caller),
        stack_pointer(m) + frame_size() + locals_of(opening) + 1 < 0x10000,
    ensures
        ({
            let first = (stack_pointer(m) - args_of(caller)) as u16;
            exists|end: Machine|
                {
                    &&& #[trigger] reaches(
                        code,
                        State { machine: m, at: k },
                        State { machine: end, at: k + listed(caller).len() },
                        symbols,
                    )
                    &&& stack_pointer(end) == first + 1
                    &&& end.ram[first] == offset_of(pushing)
                    &&& end.ram[1] == m.ram[1]
                    &&& end.ram[2] == m.ram[2]
                    &&& end.ram[3] == m.ram[3]
                    &&& end.ram[4] == m.ram[4]
                    &&& forall|c: u16| registers_end() <= c < first ==> end.ram[c] == m.ram[c]
                }
        }),
{
    let e = entered(m, caller, opening, symbols);
    lemma_entered(m, caller, opening, symbols);
    lemma_listed_push(pushing, e, symbols);
    lemma_push(pushing, e, symbols);
    lemma_push_is_push_listing(pushing);
    let left = run(e, listed(pushing), symbols);
    let frame = e.ram[1];
    assert(keeps_frame(e, left)) by {
        assert forall|j: int| 1 <= j <= 5 implies left.ram[(frame - j) as u16] == e.ram[#[trigger] ((
        frame - j) as u16)] by {}
    }
    lemma_call_and_return(caller, opening, listed(pushing), closing, code, k, q, m, symbols);
}

/// A call comes back behind itself with the result of the function, as
/// `lemma_call_and_return` says, also where the listings of the call and
/// of the function stand in the program as the generators write them,
/// without comments and empty lines around them.
#[verifier::rlimit(40)]
pub proof fn lemma_call_and_return_bare(
    caller: InstructionView,
    opening: InstructionView,
    body: Seq<Line>,
    code: Seq<Line>,
    k: int,
    q: int,
    m: Machine,
    symbols: Symbols,
)
    requires
        function_call(caller) is Ok,
        function_declaration(opening) is Ok,
        opening.arg1 == caller.arg1,
        occurs(code, function_call(caller)->Ok_0, k),
        occurs(code, function_declaration(opening)->Ok_0 + body + return_to_caller(), q),
        resolves(code, symbols),
        straight(body),
        stack_pointer(m) >= registers_end() + args_of(caller),
        stack_pointer(m) + frame_size() + locals_of(opening) < 0x10000,
        keeps_frame(
            entered(m, caller, opening, symbols),
            run(entered(m, caller, opening, symbols), body, symbols),
        ),
    ensures
        ({
            let first = (stack_pointer(m) - args_of(caller)) as u16;
            let left = run(entered(m, caller, opening, symbols), body, symbols);
            exists|end: Machine|
                {
                    &&& #[trigger] reaches(
                        code,
                        State { machine: m, at: k },
                        State { machine: end, at: k + function_call(caller)->Ok_0.len() },
                        symbols,
                    )
                    &&& stack_pointer(end) == first + 1
                    &&& end.ram[first] == left.ram[(left.ram[0] - 1) as u16]
                    &&& end.ram[1] == m.ram[1]
                    &&& end.ram[2] == m.ram[2]
                    &&& end.ram[3] == m.ram[3]
                    &&& end.ram[4] == m.ram[4]
                    &&& forall|c: u16|
                        registers_end() <= c < first ==> end.ram[c] == left.ram[c]
                }
        }),
{
    let name = caller.arg1->0;
    let back = return_label(caller.module, caller.frame, caller.index);
    let calling = call(name, args_of(caller), back);
    let locals = zeros(locals_of(opening));
    let rf = return_frame();
    let callee = function_entry(name, locals_of(opening)) + body + return_to_caller();
    let len = calling.len() as int;
    let prepared = run(m, call_frame(name, args_of(caller), back), symbols);
    let e = entered(m, caller, opening, symbols);
    let left = run(e, body, symbols);
    let end = run(left, rf, symbols);
    lemma_given_back(m, caller, opening, left, symbols);
    lemma_call_frame(name, args_of(caller), back, m, symbols);
    assert(callee[0] == Line::Label(name));
    lemma_line_of(code, callee, q, 0);
    lemma_call_listing(name, args_of(caller), back, code, k, q, m, symbols);
    lemma_zeros(locals_of(opening), prepared, symbols);
    lemma_return_frame(left, symbols);
    let mid = locals + body + rf;
    let n = mid.len() as int;
    assert(callee.len() == n + 2);
    assert(callee.subrange(1, 1 + n) =~= mid);
    assert(callee[1 + n] == branch(Comp::Zero, Jump::Jmp));
    lemma_line_of(code, callee, q, 1 + n);
    lemma_then(prepared, locals, body, symbols);
    lemma_then(prepared, locals + body, rf, symbols);
    lemma_part_runs(code, callee, q, 1, 1 + n, mid, prepared, symbols);
    let s0 = State { machine: m, at: k };
    let s2 = State { machine: prepared, at: q + 1 };
    let s3 = State { machine: end, at: q + 1 + n };
    let s4 = State { machine: end, at: landing(code, symbols[back] as nat) };
    let s5 = State { machine: end, at: k + len };
    assert(next(code, s3, symbols) == s4);
    lemma_reaches_next(code, s3, symbols);
    lemma_reaches_trans(code, s0, s2, s3, symbols);
    lemma_reaches_trans(code, s0, s3, s4, symbols);
    lemma_jump_to_label(code, back, k + len - 1, end, symbols);
    lemma_reaches_trans(code, s0, s4, s5, symbols);
    assert(reaches(
        code,
        s0,
        State { machine: end, at: k + function_call(caller)->Ok_0.len() },
        symbols,
    ));
}

/// The program that is nothing but a call and the function it calls: the
/// listings of a `call`, of a `function`, of a push and of a `return`, one
/// after the other.
pub open spec fn call_and_function(
    caller: InstructionView,
    opening: InstructionView,
    pushing: InstructionView,
) -> Seq<Line> {
    function_call(caller)->Ok_0 + function_declaration(opening)->Ok_0 + memory_access(
        pushing,
    )->Ok_0 + return_to_caller()
}

/// Opening `count` local cells takes four lines for each.
pub proof fn lemma_zeros_len(count: nat)
    ensures
        zeros(count).len() == 4 * count,
    decreases count,
{
    if count > 0 {
        lemma_zeros_len((count - 1) as nat);
        assert(push_zero().len() == 4);
    }
}

/// A call of a function that pushes a constant and returns, taken by
/// itself: in the program that holds the listing of the call and then the
/// listings of the function, assembled with the program's own symbol
/// table, the machine gets from the first line of the call to behind the
/// call. The stack pointer is then one above where the first argument was
/// (one above where it was before the call, for a call without
/// arguments), the cell below it holds the constant, and the caller's four
/// segment pointers and the cells of its stack below the arguments are
/// what they were before the call.
#[verifier::rlimit(40)]
pub proof fn lemma_round_trip_alone(
    caller: InstructionView,
    opening: InstructionView,
    pushing: InstructionView,
    m: Machine,
)
    requires
        function_call(caller) is Ok,
        function_declaration(opening) is Ok,
        opening.arg1 == caller.arg1,
        caller.arg1->0 != return_label(caller.module, caller.frame, caller.index),
        pushing.operation == "push"@,
        pushing.arg1 == Some("constant"@),
        memory_access(pushing) is Ok,
        locals_of(opening) <= 8000,
        stack_pointer(m) >= registers_end() + args_of(caller),
        stack_pointer(m) + frame_size() + locals_of(opening) + 1 < 0x10000,
    ensures
        ({
            let code = call_and_function(caller, opening, pushing);
            let first = (stack_pointer(m) - args_of(caller)) as u16;
            &&& resolves(code, symbols_of(code))
            &&& code[function_call(caller)->Ok_0.len() - 1] == Line::Label(
                return_label(caller.module, caller.frame, caller.index),
            )
            &&& exists|end: Machine|
                {
                    &&& #[trigger] reaches(
                        code,
                        State { machine: m, at: 0 },
                        State { machine: end, at: function_call(caller)->Ok_0.len() as int },
                        symbols_of(code),
                    )
                    &&& stack_pointer(end) == first + 1
                    &&& end.ram[first] == offset_of(pushing)
                    &&& end.ram[1] == m.ram[1]
                    &&& end.ram[2] == m.ram[2]
                    &&& end.ram[3] == m.ram[3]
                    &&& end.ram[4] == m.ram[4]
                    &&& forall|c: u16| registers_end() <= c < first ==> end.ram[c] == m.ram[c]
                }
        }),
{
    let name = caller.arg1->0;
    let back = return_label(caller.module, caller.frame, caller.index);
    let calling = call(name, args_of(caller), back);
    let entry = function_entry(name, locals_of(opening));
    let body = memory_access(pushing)->Ok_0;
    let code = call_and_function(caller, opening, pushing);
    let symbols = symbols_of(code);
    let callee = entry + body + return_to_caller();
    // No label twice, and the program fits in instruction memory.
    lemma_labels_of_call(name, args_of(caller), back);
    lemma_zeros_unlabelled(locals_of(opening));
    lemma_no_labels(zeros(locals_of(opening)));
    lemma_labels_push(Seq::empty(), Line::Label(name));
    lemma_labels_concat(define_label(name), zeros(locals_of(opening)));
    lemma_memory_access_unlabelled(pushing);
    lemma_no_labels(body);
    lemma_frames_unlabelled(name, args_of(caller), back);
    assert(unlabelled(return_to_caller())) by {
        broadcast use group_unlabelled;

    }
    lemma_no_labels(return_to_caller());
    lemma_labels_concat(calling, entry);
    lemma_labels_concat(calling + entry, body);
    lemma_labels_concat(calling + entry + body, return_to_caller());
    assert(labels_in(code) =~= Seq::<Seq<char>>::empty().push(back).push(name));
    lemma_zeros_len(locals_of(opening));
    lemma_push_is_push_listing(pushing);
    assert(calling.len() == 45);
    assert(body.len() == 6);
    assert(return_to_caller().len() == 42);
    assert(code.len() == 94 + 4 * locals_of(opening));
    lemma_address_bound(code, code.len() as int);
    lemma_resolvable(code);
    // The call stands at the start, the function behind it.
    assert(code.subrange(0, calling.len() as int) =~= calling);
    assert(code =~= calling + callee);
    assert(code.subrange(calling.len() as int, (calling.len() + callee.len()) as int) =~= callee);
    // The push keeps the frame.
    let e = entered(m, caller, opening, symbols);
    lemma_entered(m, caller, opening, symbols);
    lemma_push(pushing, e, symbols);
    let left = run(e, body, symbols);
    let frame = e.ram[1];
    assert(keeps_frame(e, left)) by {
        assert forall|j: int| 1 <= j <= 5 implies left.ram[(frame - j) as u16] == e.ram[#[trigger] ((
        frame - j) as u16)] by {}
    }
    lemma_call_and_return_bare(
        caller,
        opening,
        body,
        code,
        0,
        calling.len() as int,
        m,
        symbols,
    );
    assert(calling[calling.len() - 1] == Line::Label(back));
}

} // verus!
