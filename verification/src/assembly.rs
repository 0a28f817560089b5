//! The target machine's assembly language: its lines as data, the text each
//! line is written as, and an emitter that writes lines while recording
//! which lines it wrote.

use crate::text::{decimal, push_decimal};
use vstd::prelude::*;
use vstd::string::*;

verus! {

/// A memory cell that the assembler knows by name.
#[derive(Clone, Copy, Debug)]
pub enum Register {
    /// The stack pointer, cell 0.
    Sp,
    /// Base of the running function's local segment, cell 1.
    Lcl,
    /// Base of the running function's argument segment, cell 2.
    Arg,
    /// Base of the `this` segment, cell 3.
    This,
    /// Base of the `that` segment, cell 4.
    That,
    /// One of the sixteen general cells `R0` to `R15`.
    General(u8),
}

/// Where a computed value is stored: any subset of `A`, `D` and `M`.
#[derive(Clone, Copy, Debug)]
pub enum Dest {
    Null,
    M,
    D,
    MD,
    A,
    AM,
    AD,
    AMD,
}

/// What the arithmetic unit computes from `A`, `D` and the cell `M` that `A` addresses.
#[derive(Clone, Copy, Debug)]
pub enum Comp {
    Zero,
    One,
    MinusOne,
    D,
    A,
    M,
    NotD,
    NotA,
    NotM,
    NegD,
    NegA,
    NegM,
    DPlusOne,
    APlusOne,
    MPlusOne,
    DMinusOne,
    AMinusOne,
    MMinusOne,
    DPlusA,
    DPlusM,
    DMinusA,
    DMinusM,
    AMinusD,
    MMinusD,
    DAndA,
    DAndM,
    DOrA,
    DOrM,
    /// `D+M`, written with `M` first.
    MPlusD,
    /// `D&M`, written with `M` first.
    MAndD,
    /// `D|M`, written with `M` first.
    MOrD,
}

/// When a computed value makes the machine jump to the address in `A`.
#[derive(Clone, Copy, Debug)]
pub enum Jump {
    Null,
    Jgt,
    Jeq,
    Jge,
    Jlt,
    Jne,
    Jle,
    Jmp,
}

/// What an address instruction loads into `A`.
pub enum Operand {
    /// A number, written in decimal.
    Number(nat),
    /// The address of a cell the assembler knows by name.
    Register(Register),
    /// The address that the assembler gives to a label or a variable.
    Symbol(Seq<char>),
}

/// One line of assembly.
pub enum Line {
    /// `// text`
    Comment(Seq<char>),
    /// An empty line.
    Blank,
    /// `@operand`
    Load(Operand),
    /// `dest=comp;jump`, with the parts that are `Null` left out.
    Compute(Dest, Comp, Jump),
    /// `(name)`: gives the address of the next instruction the name `name`.
    Label(Seq<char>),
}

/// `@r` for a named cell.
pub open spec fn load(r: Register) -> Line {
    Line::Load(Operand::Register(r))
}

/// `@n` for a number.
pub open spec fn load_number(n: nat) -> Line {
    Line::Load(Operand::Number(n))
}

/// `@name` for a label or a variable.
pub open spec fn load_symbol(name: Seq<char>) -> Line {
    Line::Load(Operand::Symbol(name))
}

/// `dest=comp`
pub open spec fn assign(dest: Dest, comp: Comp) -> Line {
    Line::Compute(dest, comp, Jump::Null)
}

/// `comp;jump`
pub open spec fn branch(comp: Comp, jump: Jump) -> Line {
    Line::Compute(Dest::Null, comp, jump)
}

/// The cell that a register names.
pub open spec fn register_address(r: Register) -> nat {
    match r {
        Register::Sp => 0,
        Register::Lcl => 1,
        Register::Arg => 2,
        Register::This => 3,
        Register::That => 4,
        Register::General(n) => n as nat,
    }
}

/// How a register is written.
pub open spec fn register_text(r: Register) -> Seq<char> {
    match r {
        Register::Sp => "SP"@,
        Register::Lcl => "LCL"@,
        Register::Arg => "ARG"@,
        Register::This => "THIS"@,
        Register::That => "THAT"@,
        Register::General(n) => "R"@ + decimal(n as nat),
    }
}

/// How a destination is written, with the `=` behind it; nothing where there is none.
pub open spec fn dest_text(d: Dest) -> Seq<char> {
    match d {
        Dest::Null => Seq::empty(),
        Dest::M => "M="@,
        Dest::D => "D="@,
        Dest::MD => "MD="@,
        Dest::A => "A="@,
        Dest::AM => "AM="@,
        Dest::AD => "AD="@,
        Dest::AMD => "AMD="@,
    }
}

/// How a computation is written.
pub open spec fn comp_text(c: Comp) -> Seq<char> {
    match c {
        Comp::Zero => "0"@,
        Comp::One => "1"@,
        Comp::MinusOne => "-1"@,
        Comp::D => "D"@,
        Comp::A => "A"@,
        Comp::M => "M"@,
        Comp::NotD => "!D"@,
        Comp::NotA => "!A"@,
        Comp::NotM => "!M"@,
        Comp::NegD => "-D"@,
        Comp::NegA => "-A"@,
        Comp::NegM => "-M"@,
        Comp::DPlusOne => "D+1"@,
        Comp::APlusOne => "A+1"@,
        Comp::MPlusOne => "M+1"@,
        Comp::DMinusOne => "D-1"@,
        Comp::AMinusOne => "A-1"@,
        Comp::MMinusOne => "M-1"@,
        Comp::DPlusA => "D+A"@,
        Comp::DPlusM => "D+M"@,
        Comp::DMinusA => "D-A"@,
        Comp::DMinusM => "D-M"@,
        Comp::AMinusD => "A-D"@,
        Comp::MMinusD => "M-D"@,
        Comp::DAndA => "D&A"@,
        Comp::DAndM => "D&M"@,
        Comp::DOrA => "D|A"@,
        Comp::DOrM => "D|M"@,
        Comp::MPlusD => "M+D"@,
        Comp::MAndD => "M&D"@,
        Comp::MOrD => "M|D"@,
    }
}

/// How a jump is written, with the `;` before it; nothing where there is none.
pub open spec fn jump_text(j: Jump) -> Seq<char> {
    match j {
        Jump::Null => Seq::empty(),
        Jump::Jgt => ";JGT"@,
        Jump::Jeq => ";JEQ"@,
        Jump::Jge => ";JGE"@,
        Jump::Jlt => ";JLT"@,
        Jump::Jne => ";JNE"@,
        Jump::Jle => ";JLE"@,
        Jump::Jmp => ";JMP"@,
    }
}

/// How an operand is written.
pub open spec fn operand_text(o: Operand) -> Seq<char> {
    match o {
        Operand::Number(n) => decimal(n),
        Operand::Register(r) => register_text(r),
        Operand::Symbol(name) => name,
    }
}

/// The text of one line, with the newline that ends it.
pub open spec fn render_line(l: Line) -> Seq<char> {
    match l {
        Line::Comment(text) => "// "@ + text + "\n"@,
        Line::Blank => "\n"@,
        Line::Load(o) => "@"@ + operand_text(o) + "\n"@,
        Line::Compute(d, c, j) => dest_text(d) + comp_text(c) + jump_text(j) + "\n"@,
        Line::Label(name) => "("@ + name + ")\n"@,
    }
}

/// The text of a listing: its lines one after the other.
pub open spec fn render(code: Seq<Line>) -> Seq<char>
    decreases code.len(),
{
    if code.len() == 0 {
        Seq::empty()
    } else {
        render(code.drop_last()) + render_line(code.last())
    }
}

/// The text of a listing with one more line is the text of the listing, then that of the line.
pub broadcast proof fn lemma_render_push(code: Seq<Line>, l: Line)
    ensures
        #[trigger] render(code.push(l)) == render(code) + render_line(l),
{
    assert(code.push(l).drop_last() =~= code);
}

/// The text of two listings in a row is the two texts in a row.
pub broadcast proof fn lemma_render_concat(a: Seq<Line>, b: Seq<Line>)
    ensures
        #[trigger] render(a + b) == render(a) + render(b),
    decreases b.len(),
{
    if b.len() == 0 {
        assert(a + b =~= a);
        assert(render(a) + render(b) =~= render(a));
    } else {
        lemma_render_concat(a, b.drop_last());
        assert((a + b).drop_last() =~= a + b.drop_last());
        assert(render(a + b) =~= render(a) + render(b));
    }
}

fn register_str(r: Register) -> (s: &'static str)
    requires
        !(r is General),
    ensures
        s@ == register_text(r),
{
    match r {
        Register::Sp => "SP",
        Register::Lcl => "LCL",
        Register::Arg => "ARG",
        Register::This => "THIS",
        Register::That => "THAT",
        Register::General(_) => "R",
    }
}

fn dest_str(d: Dest) -> (s: &'static str)
    ensures
        s@ == dest_text(d),
{
    match d {
        Dest::Null => {
            proof {
                reveal_strlit("");
            }
            assert(""@ =~= Seq::<char>::empty());
            ""
        },
        Dest::M => "M=",
        Dest::D => "D=",
        Dest::MD => "MD=",
        Dest::A => "A=",
        Dest::AM => "AM=",
        Dest::AD => "AD=",
        Dest::AMD => "AMD=",
    }
}

fn comp_str(c: Comp) -> (s: &'static str)
    ensures
        s@ == comp_text(c),
{
    match c {
        Comp::Zero => "0",
        Comp::One => "1",
        Comp::MinusOne => "-1",
        Comp::D => "D",
        Comp::A => "A",
        Comp::M => "M",
        Comp::NotD => "!D",
        Comp::NotA => "!A",
        Comp::NotM => "!M",
        Comp::NegD => "-D",
        Comp::NegA => "-A",
        Comp::NegM => "-M",
        Comp::DPlusOne => "D+1",
        Comp::APlusOne => "A+1",
        Comp::MPlusOne => "M+1",
        Comp::DMinusOne => "D-1",
        Comp::AMinusOne => "A-1",
        Comp::MMinusOne => "M-1",
        Comp::DPlusA => "D+A",
        Comp::DPlusM => "D+M",
        Comp::DMinusA => "D-A",
        Comp::DMinusM => "D-M",
        Comp::AMinusD => "A-D",
        Comp::MMinusD => "M-D",
        Comp::DAndA => "D&A",
        Comp::DAndM => "D&M",
        Comp::DOrA => "D|A",
        Comp::DOrM => "D|M",
        Comp::MPlusD => "M+D",
        Comp::MAndD => "M&D",
        Comp::MOrD => "M|D",
    }
}

fn jump_str(j: Jump) -> (s: &'static str)
    ensures
        s@ == jump_text(j),
{
    match j {
        Jump::Null => {
            proof {
                reveal_strlit("");
            }
            assert(""@ =~= Seq::<char>::empty());
            ""
        },
        Jump::Jgt => ";JGT",
        Jump::Jeq => ";JEQ",
        Jump::Jge => ";JGE",
        Jump::Jlt => ";JLT",
        Jump::Jne => ";JNE",
        Jump::Jle => ";JLE",
        Jump::Jmp => ";JMP",
    }
}

/// Writes assembly text line by line and keeps, as ghost state, the listing
/// that the text written so far is the rendering of.
pub struct Emitter {
    text: String,
    code: Ghost<Seq<Line>>,
}

impl Emitter {
    /// The lines written so far.
    pub closed spec fn code(&self) -> Seq<Line> {
        self.code@
    }

    /// The text written so far is the rendering of `code()`.
    pub closed spec fn wf(&self) -> bool {
        self.text@ == render(self.code@)
    }

    /// An emitter that has written nothing yet.
    pub fn new() -> (e: Emitter)
        ensures
            e.wf(),
            e.code() == Seq::<Line>::empty(),
    {
        Emitter { text: String::new(), code: Ghost(Seq::empty()) }
    }

    /// Goes on from a text that is known to render `code`.
    pub fn resume(text: String, Ghost(code): Ghost<Seq<Line>>) -> (e: Emitter)
        requires
            text@ == render(code),
        ensures
            e.wf(),
            e.code() == code,
    {
        Emitter { text, code: Ghost(code) }
    }

    /// Hands out the text written.
    pub fn finish(self) -> (s: String)
        requires
            self.wf(),
        ensures
            s@ == render(self.code()),
    {
        self.text
    }

    /// Takes over a text that renders `code`.
    pub fn append(&mut self, text: &str, Ghost(code): Ghost<Seq<Line>>)
        requires
            old(self).wf(),
            text@ == render(code),
        ensures
            final(self).wf(),
            final(self).code() == old(self).code() + code,
    {
        broadcast use lemma_render_concat;

        self.text.append(text);
        self.code = Ghost(self.code@ + code);
    }

    /// Writes `// text`.
    pub fn comment(&mut self, text: &str)
        requires
            old(self).wf(),
        ensures
            final(self).wf(),
            final(self).code() == old(self).code().push(Line::Comment(text@)),
    {
        broadcast use lemma_render_push;

        let ghost line = Line::Comment(text@);
        self.text.append("// ");
        self.text.append(text);
        self.text.append("\n");
        assert(self.text@ =~= old(self).text@ + render_line(line));
        self.code = Ghost(self.code@.push(line));
    }

    /// Writes an empty line.
    pub fn blank(&mut self)
        requires
            old(self).wf(),
        ensures
            final(self).wf(),
            final(self).code() == old(self).code().push(Line::Blank),
    {
        broadcast use lemma_render_push;

        self.text.append("\n");
        self.code = Ghost(self.code@.push(Line::Blank));
    }

    /// Writes `@r`.
    pub fn load(&mut self, r: Register)
        requires
            old(self).wf(),
            r matches Register::General(n) ==> n <= 15,
        ensures
            final(self).wf(),
            final(self).code() == old(self).code().push(load(r)),
    {
        broadcast use lemma_render_push;

        self.text.append("@");
        match r {
            Register::General(n) => {
                self.text.append("R");
                push_decimal(&mut self.text, n as usize);
            },
            _ => {
                self.text.append(register_str(r));
            },
        }
        self.text.append("\n");
        assert(self.text@ =~= old(self).text@ + render_line(load(r)));
        self.code = Ghost(self.code@.push(load(r)));
    }

    /// Writes `@n`.
    pub fn load_number(&mut self, n: usize)
        requires
            old(self).wf(),
        ensures
            final(self).wf(),
            final(self).code() == old(self).code().push(load_number(n as nat)),
    {
        broadcast use lemma_render_push;

        self.text.append("@");
        push_decimal(&mut self.text, n);
        self.text.append("\n");
        assert(self.text@ =~= old(self).text@ + render_line(load_number(n as nat)));
        self.code = Ghost(self.code@.push(load_number(n as nat)));
    }

    /// Writes `@name`.
    pub fn load_symbol(&mut self, name: &str)
        requires
            old(self).wf(),
        ensures
            final(self).wf(),
            final(self).code() == old(self).code().push(load_symbol(name@)),
    {
        broadcast use lemma_render_push;

        self.text.append("@");
        self.text.append(name);
        self.text.append("\n");
        assert(self.text@ =~= old(self).text@ + render_line(load_symbol(name@)));
        self.code = Ghost(self.code@.push(load_symbol(name@)));
    }

    /// Writes `dest=comp;jump`.
    pub fn compute(&mut self, dest: Dest, comp: Comp, jump: Jump)
        requires
            old(self).wf(),
        ensures
            final(self).wf(),
            final(self).code() == old(self).code().push(Line::Compute(dest, comp, jump)),
    {
        broadcast use lemma_render_push;

        let ghost line = Line::Compute(dest, comp, jump);
        self.text.append(dest_str(dest));
        self.text.append(comp_str(comp));
        self.text.append(jump_str(jump));
        self.text.append("\n");
        assert(self.text@ =~= old(self).text@ + render_line(line));
        self.code = Ghost(self.code@.push(line));
    }

    /// Writes `dest=comp`.
    pub fn assign(&mut self, dest: Dest, comp: Comp)
        requires
            old(self).wf(),
        ensures
            final(self).wf(),
            final(self).code() == old(self).code().push(assign(dest, comp)),
    {
        self.compute(dest, comp, Jump::Null);
    }

    /// Writes `comp;jump`.
    pub fn branch(&mut self, comp: Comp, jump: Jump)
        requires
            old(self).wf(),
        ensures
            final(self).wf(),
            final(self).code() == old(self).code().push(branch(comp, jump)),
    {
        self.compute(Dest::Null, comp, jump);
    }

    /// Writes `(name)`.
    pub fn label(&mut self, name: &str)
        requires
            old(self).wf(),
        ensures
            final(self).wf(),
            final(self).code() == old(self).code().push(Line::Label(name@)),
    {
        broadcast use lemma_render_push;

        let ghost line = Line::Label(name@);
        self.text.append("(");
        self.text.append(name);
        self.text.append(")\n");
        assert(self.text@ =~= old(self).text@ + render_line(line));
        self.code = Ghost(self.code@.push(line));
    }
}

} // verus!
