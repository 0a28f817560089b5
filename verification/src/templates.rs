//! The fixed assembly listings that the code generators are assembled from,
//! each as a value and as the function that writes it.
//!
//! Conventions of the target machine: cell 0 is the stack pointer and
//! addresses the first free cell above the stack; `R13` and `R14` are
//! scratch cells of the translator.

use crate::assembly::{
    assign, branch, load, load_number, load_symbol, Comp, Dest, Emitter, Jump, Line, Operand,
    Register,
};
use vstd::prelude::*;

verus! {

/// The first cell of the stack when a program starts.
pub const STACK_BASE: usize = 256;

/// The first of the eight cells that hold the `temp` segment.
pub const TEMP_BASE: u8 = 5;

/// The number of cells in the `temp` segment.
pub const TEMP_SIZE: u8 = 8;

/// The function that a translated program starts in.
pub open spec fn entry_point() -> Seq<char> {
    "Sys.init"@
}

/// The label behind the bootstrap's call of the entry point.
pub open spec fn bootstrap_return() -> Seq<char> {
    "bootstrap$ret"@
}

/// A memory cell that an instruction reads or writes by its address.
pub enum Cell {
    /// A cell the assembler knows by name.
    Named(Register),
    /// A cell that the assembler gives to a variable of this name.
    Variable(String),
}

impl Cell {
    /// The operand that loads the address of the cell.
    pub open spec fn operand(self) -> Operand {
        match self {
            Cell::Named(r) => Operand::Register(r),
            Cell::Variable(name) => Operand::Symbol(name@),
        }
    }

    /// A general register is one of `R0` to `R15`.
    pub open spec fn wf(self) -> bool {
        self matches Cell::Named(Register::General(n)) ==> n <= 15
    }
}

/// Pushes `D`: `D` goes to the first free cell, and the stack pointer moves up by one.
pub open spec fn push_d() -> Seq<Line> {
    Seq::empty().push(load(Register::Sp)).push(assign(Dest::M, Comp::MPlusOne)).push(
        assign(Dest::A, Comp::MMinusOne),
    ).push(assign(Dest::M, Comp::D))
}

/// Pushes zero.
pub open spec fn push_zero() -> Seq<Line> {
    Seq::empty().push(load(Register::Sp)).push(assign(Dest::M, Comp::MPlusOne)).push(
        assign(Dest::A, Comp::MMinusOne),
    ).push(assign(Dest::M, Comp::Zero))
}

/// Pops into `D`: the stack pointer moves down by one, and `D` takes the
/// cell it then addresses.
pub open spec fn pop_d() -> Seq<Line> {
    Seq::empty().push(load(Register::Sp)).push(assign(Dest::AM, Comp::MMinusOne)).push(
        assign(Dest::D, Comp::M),
    )
}

/// Loads the number `n` into `D`.
pub open spec fn read_constant(n: nat) -> Seq<Line> {
    Seq::empty().push(load_number(n)).push(assign(Dest::D, Comp::A))
}

/// Loads the cell `cell` into `D`.
pub open spec fn read_direct(cell: Operand) -> Seq<Line> {
    Seq::empty().push(Line::Load(cell)).push(assign(Dest::D, Comp::M))
}

/// Loads the cell `offset` cells above the address held in `base` into `D`.
pub open spec fn read_indirect(base: Register, offset: nat) -> Seq<Line> {
    Seq::empty().push(load(base)).push(assign(Dest::D, Comp::M)).push(load_number(offset)).push(
        assign(Dest::A, Comp::DPlusA),
    ).push(assign(Dest::D, Comp::M))
}

/// Pops into the cell `cell`.
pub open spec fn pop_direct(cell: Operand) -> Seq<Line> {
    pop_d().push(Line::Load(cell)).push(assign(Dest::M, Comp::D))
}

/// Pops into the cell `offset` cells above the address held in `base`. The
/// address is kept in `R13` while the value is taken off the stack.
pub open spec fn pop_indirect(base: Register, offset: nat) -> Seq<Line> {
    Seq::empty().push(load(base)).push(assign(Dest::D, Comp::M)).push(load_number(offset)).push(
        assign(Dest::D, Comp::DPlusA),
    ).push(load(Register::General(13))).push(assign(Dest::M, Comp::D)) + pop_d().push(
        load(Register::General(13)),
    ).push(assign(Dest::A, Comp::M)).push(assign(Dest::M, Comp::D))
}

/// Replaces the two cells on top of the stack by one: `comp`, computed with
/// the upper cell in `D` and the lower one as `M`.
pub open spec fn binary(comp: Comp) -> Seq<Line> {
    pop_d().push(assign(Dest::A, Comp::AMinusOne)).push(assign(Dest::M, comp))
}

/// Replaces the cell on top of the stack by `comp`, computed with that cell as `M`.
pub open spec fn unary(comp: Comp) -> Seq<Line> {
    Seq::empty().push(load(Register::Sp)).push(assign(Dest::A, Comp::MMinusOne)).push(
        assign(Dest::M, comp),
    )
}

/// Replaces the two cells on top of the stack by -1 if the lower one minus
/// the upper one makes `jump` jump, and by 0 if not.
pub open spec fn comparison(jump: Jump, hit: Seq<char>, done: Seq<char>) -> Seq<Line> {
    pop_d().push(assign(Dest::A, Comp::AMinusOne)).push(assign(Dest::D, Comp::MMinusD)).push(
        load_symbol(hit),
    ).push(branch(Comp::D, jump)) + unary(Comp::Zero).push(load_symbol(done)).push(
        branch(Comp::Zero, Jump::Jmp),
    ).push(Line::Label(hit)) + unary(Comp::MinusOne).push(Line::Label(done))
}

/// Marks the place that `name` stands for.
pub open spec fn define_label(name: Seq<char>) -> Seq<Line> {
    Seq::empty().push(Line::Label(name))
}

/// Goes on at the place that `name` stands for.
pub open spec fn jump_to(name: Seq<char>) -> Seq<Line> {
    Seq::empty().push(load_symbol(name)).push(branch(Comp::Zero, Jump::Jmp))
}

/// Pops the top of the stack, and goes on at the place that `name` stands
/// for if the popped value is not zero.
pub open spec fn jump_if(name: Seq<char>) -> Seq<Line> {
    pop_d().push(load_symbol(name)).push(branch(Comp::D, Jump::Jne))
}

/// `count` times "push zero".
pub open spec fn zeros(count: nat) -> Seq<Line>
    decreases count,
{
    if count == 0 {
        Seq::empty()
    } else {
        zeros((count - 1) as nat) + push_zero()
    }
}

/// Opens the function `name` with `locals` local cells, all zero.
pub open spec fn function_entry(name: Seq<char>, locals: nat) -> Seq<Line> {
    define_label(name) + zeros(locals)
}

/// Pushes the cell `r`.
pub open spec fn save(r: Register) -> Seq<Line> {
    read_direct(Operand::Register(r)) + push_d()
}

/// Pushes the frame of a call: the address that `back` names, and the
/// caller's four segment pointers.
pub open spec fn push_frame(back: Seq<char>) -> Seq<Line> {
    Seq::empty().push(load_symbol(back)).push(assign(Dest::D, Comp::A)) + push_d() + save(
        Register::Lcl,
    ) + save(Register::Arg) + save(Register::This) + save(Register::That)
}

/// The part of a call that runs straight through: pushes the frame, points
/// `ARG` at the first argument and `LCL` at the top of the stack, and loads
/// the address of the function into `A`.
pub open spec fn call_frame(name: Seq<char>, args: nat, back: Seq<char>) -> Seq<Line> {
    (push_frame(back) + reposition(args)).push(load_symbol(name))
}

/// Points `ARG` at the first of the `args` arguments below the saved frame,
/// which takes five cells, and `LCL` at the top of the stack.
pub open spec fn reposition(args: nat) -> Seq<Line> {
    Seq::empty().push(load(Register::Sp)).push(assign(Dest::D, Comp::M)).push(
        load_number(args),
    ).push(assign(Dest::D, Comp::DMinusA)).push(load_number(5)).push(
        assign(Dest::D, Comp::DMinusA),
    ).push(load(Register::Arg)).push(assign(Dest::M, Comp::D)).push(load(Register::Sp)).push(
        assign(Dest::D, Comp::M),
    ).push(load(Register::Lcl)).push(assign(Dest::M, Comp::D))
}

/// Calls `name` with the `args` cells on top of the stack as its arguments:
/// sets up the frame, jumps to the function, and marks the place behind the
/// call, which `back` names.
pub open spec fn call(name: Seq<char>, args: nat, back: Seq<char>) -> Seq<Line> {
    call_frame(name, args, back).push(branch(Comp::Zero, Jump::Jmp)).push(Line::Label(back))
}

/// Moves `R13` down by one and copies the cell it then addresses to `r`.
pub open spec fn restore(r: Register) -> Seq<Line> {
    Seq::empty().push(load(Register::General(13))).push(assign(Dest::AM, Comp::MMinusOne)).push(
        assign(Dest::D, Comp::M),
    ).push(load(r)).push(assign(Dest::M, Comp::D))
}

/// Keeps the frame's address in `R13` and the return address, which is five
/// cells below it, in `R14`.
pub open spec fn keep_frame() -> Seq<Line> {
    Seq::empty().push(load(Register::Lcl)).push(assign(Dest::D, Comp::M)).push(
        load(Register::General(13)),
    ).push(assign(Dest::M, Comp::D)).push(load_number(5)).push(assign(Dest::A, Comp::DMinusA)).push(
        assign(Dest::D, Comp::M),
    ).push(load(Register::General(14))).push(assign(Dest::M, Comp::D))
}

/// Moves the value on top of the stack to where the first argument was, and
/// points the stack pointer just above it.
pub open spec fn hand_back() -> Seq<Line> {
    pop_d().push(load(Register::Arg)).push(assign(Dest::A, Comp::M)).push(
        assign(Dest::M, Comp::D),
    ).push(load(Register::Arg)).push(assign(Dest::D, Comp::MPlusOne)).push(
        load(Register::Sp),
    ).push(assign(Dest::M, Comp::D))
}

/// Restores the caller's four segment pointers from the frame below the
/// address in `R13`.
pub open spec fn restore_pointers() -> Seq<Line> {
    restore(Register::That) + restore(Register::This) + restore(Register::Arg) + restore(
        Register::Lcl,
    )
}

/// The part of a return that runs straight through: keeps the frame and the
/// return address, hands the result back, restores the caller's four
/// segment pointers, and loads the return address into `A`.
pub open spec fn return_frame() -> Seq<Line> {
    (keep_frame() + hand_back() + restore_pointers()).push(load(Register::General(14))).push(
        assign(Dest::A, Comp::M),
    )
}

/// Returns to the caller: the straight part, and the jump to the return address.
pub open spec fn return_to_caller() -> Seq<Line> {
    return_frame().push(branch(Comp::Zero, Jump::Jmp))
}

/// What every translated program starts with: the stack pointer is set to
/// the stack's base, and the entry point is called without arguments.
pub open spec fn bootstrap() -> Seq<Line> {
    Seq::empty().push(Line::Comment("bootstrap"@)).push(load_number(STACK_BASE as nat)).push(
        assign(Dest::D, Comp::A),
    ).push(load(Register::Sp)).push(assign(Dest::M, Comp::D)) + call(
        entry_point(),
        0,
        bootstrap_return(),
    ).push(Line::Blank)
}

impl Emitter {
    /// Writes `@cell`.
    pub fn load_cell(&mut self, cell: &Cell)
        requires
            old(self).wf(),
            cell.wf(),
        ensures
            final(self).wf(),
            final(self).code() == old(self).code().push(Line::Load(cell.operand())),
    {
        match cell {
            Cell::Named(r) => self.load(*r),
            Cell::Variable(name) => self.load_symbol(name.as_str()),
        }
    }

    /// Writes [`push_d`].
    pub fn push_d(&mut self)
        requires
            old(self).wf(),
        ensures
            final(self).wf(),
            final(self).code() == old(self).code() + push_d(),
    {
        self.load(Register::Sp);
        self.assign(Dest::M, Comp::MPlusOne);
        self.assign(Dest::A, Comp::MMinusOne);
        self.assign(Dest::M, Comp::D);
        assert(self.code() =~= old(self).code() + push_d());
    }

    /// Writes [`push_zero`].
    pub fn push_zero(&mut self)
        requires
            old(self).wf(),
        ensures
            final(self).wf(),
            final(self).code() == old(self).code() + push_zero(),
    {
        self.load(Register::Sp);
        self.assign(Dest::M, Comp::MPlusOne);
        self.assign(Dest::A, Comp::MMinusOne);
        self.assign(Dest::M, Comp::Zero);
        assert(self.code() =~= old(self).code() + push_zero());
    }

    /// Writes [`pop_d`].
    pub fn pop_d(&mut self)
        requires
            old(self).wf(),
        ensures
            final(self).wf(),
            final(self).code() == old(self).code() + pop_d(),
    {
        self.load(Register::Sp);
        self.assign(Dest::AM, Comp::MMinusOne);
        self.assign(Dest::D, Comp::M);
        assert(self.code() =~= old(self).code() + pop_d());
    }

    /// Writes [`read_constant`].
    pub fn read_constant(&mut self, n: usize)
        requires
            old(self).wf(),
        ensures
            final(self).wf(),
            final(self).code() == old(self).code() + read_constant(n as nat),
    {
        self.load_number(n);
        self.assign(Dest::D, Comp::A);
        assert(self.code() =~= old(self).code() + read_constant(n as nat));
    }

    /// Writes [`read_direct`].
    pub fn read_direct(&mut self, cell: &Cell)
        requires
            old(self).wf(),
            cell.wf(),
        ensures
            final(self).wf(),
            final(self).code() == old(self).code() + read_direct(cell.operand()),
    {
        self.load_cell(cell);
        self.assign(Dest::D, Comp::M);
        assert(self.code() =~= old(self).code() + read_direct(cell.operand()));
    }

    /// Writes [`read_indirect`].
    pub fn read_indirect(&mut self, base: Register, offset: usize)
        requires
            old(self).wf(),
            !(base is General),
        ensures
            final(self).wf(),
            final(self).code() == old(self).code() + read_indirect(base, offset as nat),
    {
        self.load(base);
        self.assign(Dest::D, Comp::M);
        self.load_number(offset);
        self.assign(Dest::A, Comp::DPlusA);
        self.assign(Dest::D, Comp::M);
        assert(self.code() =~= old(self).code() + read_indirect(base, offset as nat));
    }

    /// Writes [`pop_direct`].
    pub fn pop_direct(&mut self, cell: &Cell)
        requires
            old(self).wf(),
            cell.wf(),
        ensures
            final(self).wf(),
            final(self).code() == old(self).code() + pop_direct(cell.operand()),
    {
        self.pop_d();
        self.load_cell(cell);
        self.assign(Dest::M, Comp::D);
        assert(self.code() =~= old(self).code() + pop_direct(cell.operand()));
    }

    /// Writes [`pop_indirect`].
    pub fn pop_indirect(&mut self, base: Register, offset: usize)
        requires
            old(self).wf(),
            !(base is General),
        ensures
            final(self).wf(),
            final(self).code() == old(self).code() + pop_indirect(base, offset as nat),
    {
        self.load(base);
        self.assign(Dest::D, Comp::M);
        self.load_number(offset);
        self.assign(Dest::D, Comp::DPlusA);
        self.load(Register::General(13));
        self.assign(Dest::M, Comp::D);
        self.pop_d();
        self.load(Register::General(13));
        self.assign(Dest::A, Comp::M);
        self.assign(Dest::M, Comp::D);
        assert(self.code() =~= old(self).code() + pop_indirect(base, offset as nat));
    }

    /// Writes [`binary`].
    pub fn binary(&mut self, comp: Comp)
        requires
            old(self).wf(),
        ensures
            final(self).wf(),
            final(self).code() == old(self).code() + binary(comp),
    {
        self.pop_d();
        self.assign(Dest::A, Comp::AMinusOne);
        self.assign(Dest::M, comp);
        assert(self.code() =~= old(self).code() + binary(comp));
    }

    /// Writes [`unary`].
    pub fn unary(&mut self, comp: Comp)
        requires
            old(self).wf(),
        ensures
            final(self).wf(),
            final(self).code() == old(self).code() + unary(comp),
    {
        self.load(Register::Sp);
        self.assign(Dest::A, Comp::MMinusOne);
        self.assign(Dest::M, comp);
        assert(self.code() =~= old(self).code() + unary(comp));
    }

    /// Writes [`comparison`].
    pub fn comparison(&mut self, jump: Jump, hit: &str, done: &str)
        requires
            old(self).wf(),
        ensures
            final(self).wf(),
            final(self).code() == old(self).code() + comparison(jump, hit@, done@),
    {
        self.pop_d();
        self.assign(Dest::A, Comp::AMinusOne);
        self.assign(Dest::D, Comp::MMinusD);
        self.load_symbol(hit);
        self.branch(Comp::D, jump);
        self.unary(Comp::Zero);
        self.load_symbol(done);
        self.branch(Comp::Zero, Jump::Jmp);
        self.label(hit);
        self.unary(Comp::MinusOne);
        self.label(done);
        assert(self.code() =~= old(self).code() + comparison(jump, hit@, done@));
    }

    /// Writes [`define_label`].
    pub fn define_label(&mut self, name: &str)
        requires
            old(self).wf(),
        ensures
            final(self).wf(),
            final(self).code() == old(self).code() + define_label(name@),
    {
        self.label(name);
        assert(self.code() =~= old(self).code() + define_label(name@));
    }

    /// Writes [`jump_to`].
    pub fn jump_to(&mut self, name: &str)
        requires
            old(self).wf(),
        ensures
            final(self).wf(),
            final(self).code() == old(self).code() + jump_to(name@),
    {
        self.load_symbol(name);
        self.branch(Comp::Zero, Jump::Jmp);
        assert(self.code() =~= old(self).code() + jump_to(name@));
    }

    /// Writes [`jump_if`].
    pub fn jump_if(&mut self, name: &str)
        requires
            old(self).wf(),
        ensures
            final(self).wf(),
            final(self).code() == old(self).code() + jump_if(name@),
    {
        self.pop_d();
        self.load_symbol(name);
        self.branch(Comp::D, Jump::Jne);
        assert(self.code() =~= old(self).code() + jump_if(name@));
    }

    /// Writes [`function_entry`].
    pub fn function_entry(&mut self, name: &str, locals: usize)
        requires
            old(self).wf(),
        ensures
            final(self).wf(),
            final(self).code() == old(self).code() + function_entry(name@, locals as nat),
    {
        self.define_label(name);
        let ghost opened = self.code();
        let mut k: usize = 0;
        assert(opened + zeros(0) =~= opened);
        while k < locals
            invariant
                k <= locals,
                self.wf(),
                self.code() == opened + zeros(k as nat),
            decreases locals - k,
        {
            self.push_zero();
            k += 1;
            assert(self.code() =~= opened + zeros(k as nat));
        }
        assert(self.code() =~= old(self).code() + function_entry(name@, locals as nat));
    }

    /// Writes [`save`].
    pub fn save(&mut self, r: Register)
        requires
            old(self).wf(),
            !(r is General),
        ensures
            final(self).wf(),
            final(self).code() == old(self).code() + save(r),
    {
        self.read_direct(&Cell::Named(r));
        self.push_d();
        assert(self.code() =~= old(self).code() + save(r));
    }

    /// Writes [`call`].
    pub fn call(&mut self, name: &str, args: usize, back: &str)
        requires
            old(self).wf(),
        ensures
            final(self).wf(),
            final(self).code() == old(self).code() + call(name@, args as nat, back@),
    {
        self.load_symbol(back);
        self.assign(Dest::D, Comp::A);
        self.push_d();
        self.save(Register::Lcl);
        self.save(Register::Arg);
        self.save(Register::This);
        self.save(Register::That);
        self.load(Register::Sp);
        self.assign(Dest::D, Comp::M);
        self.load_number(args);
        self.assign(Dest::D, Comp::DMinusA);
        self.load_number(5);
        self.assign(Dest::D, Comp::DMinusA);
        self.load(Register::Arg);
        self.assign(Dest::M, Comp::D);
        self.load(Register::Sp);
        self.assign(Dest::D, Comp::M);
        self.load(Register::Lcl);
        self.assign(Dest::M, Comp::D);
        self.jump_to(name);
        self.define_label(back);
        assert(self.code() =~= old(self).code() + call(name@, args as nat, back@));
    }

    /// Writes [`restore`].
    pub fn restore(&mut self, r: Register)
        requires
            old(self).wf(),
            !(r is General),
        ensures
            final(self).wf(),
            final(self).code() == old(self).code() + restore(r),
    {
        self.load(Register::General(13));
        self.assign(Dest::AM, Comp::MMinusOne);
        self.assign(Dest::D, Comp::M);
        self.load(r);
        self.assign(Dest::M, Comp::D);
        assert(self.code() =~= old(self).code() + restore(r));
    }

    /// Writes [`return_to_caller`].
    pub fn return_to_caller(&mut self)
        requires
            old(self).wf(),
        ensures
            final(self).wf(),
            final(self).code() == old(self).code() + return_to_caller(),
    {
        self.load(Register::Lcl);
        self.assign(Dest::D, Comp::M);
        self.load(Register::General(13));
        self.assign(Dest::M, Comp::D);
        self.load_number(5);
        self.assign(Dest::A, Comp::DMinusA);
        self.assign(Dest::D, Comp::M);
        self.load(Register::General(14));
        self.assign(Dest::M, Comp::D);
        self.pop_d();
        self.load(Register::Arg);
        self.assign(Dest::A, Comp::M);
        self.assign(Dest::M, Comp::D);
        self.load(Register::Arg);
        self.assign(Dest::D, Comp::MPlusOne);
        self.load(Register::Sp);
        self.assign(Dest::M, Comp::D);
        self.restore(Register::That);
        self.restore(Register::This);
        self.restore(Register::Arg);
        self.restore(Register::Lcl);
        self.load(Register::General(14));
        self.assign(Dest::A, Comp::M);
        self.branch(Comp::Zero, Jump::Jmp);
        assert(self.code() =~= old(self).code() + return_to_caller());
    }

    /// Writes [`bootstrap`].
    pub fn bootstrap(&mut self)
        requires
            old(self).wf(),
        ensures
            final(self).wf(),
            final(self).code() == old(self).code() + bootstrap(),
    {
        self.comment("bootstrap");
        self.load_number(STACK_BASE);
        self.assign(Dest::D, Comp::A);
        self.load(Register::Sp);
        self.assign(Dest::M, Comp::D);
        self.call("Sys.init", 0, "bootstrap$ret");
        self.blank();
        assert(self.code() =~= old(self).code() + bootstrap());
    }
}

} // verus!
