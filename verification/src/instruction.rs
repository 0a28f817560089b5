//! One parsed source line, the diagnostics that report a bad one, and the
//! rule that finds the function a line stands in.

use crate::text::{
    clone_text, decimal, equals, find_from, index_of, push_decimal, text_of, to_chars,
};
use vstd::prelude::*;
use vstd::string::*;

verus! {

/// Why a source line could not be translated.
#[derive(Clone, Copy, Debug, PartialEq, Eq, Structural)]
pub enum DiagnosticKind {
    /// An empty line reached the parser.
    MalformedInstruction,
    /// The mnemonic belongs to no instruction family.
    UnknownOperation,
    /// The operation needs an argument that the line does not have.
    MissingArgument,
    /// An argument is there but is no number, or a number that is not allowed.
    InvalidArgument,
    /// The segment name is unknown, or names a segment that cannot be popped to.
    InvalidSegment,
}

/// A report on one source line that could not be translated.
#[derive(Debug, PartialEq, Eq)]
pub struct Diagnostic {
    pub kind: DiagnosticKind,
    /// The source unit that the line is from.
    pub module: String,
    /// The line's position among the instructions of its module.
    pub index: usize,
    /// The line as it was parsed.
    pub raw: String,
    /// What is wrong with it.
    pub message: String,
}

/// A diagnostic as a value of texts and numbers.
pub struct DiagnosticView {
    pub kind: DiagnosticKind,
    pub module: Seq<char>,
    pub index: nat,
    pub raw: Seq<char>,
    pub message: Seq<char>,
}

impl View for Diagnostic {
    type V = DiagnosticView;

    open spec fn view(&self) -> DiagnosticView {
        DiagnosticView {
            kind: self.kind,
            module: self.module@,
            index: self.index as nat,
            raw: self.raw@,
            message: self.message@,
        }
    }
}

/// One line of a diagnostic listing: where the line is, the line, what is wrong.
pub open spec fn diagnostic_text(d: DiagnosticView) -> Seq<char> {
    d.module + "#"@ + decimal(d.index) + " '"@ + d.raw + "': "@ + d.message
}

impl Diagnostic {
    /// The report as one line of text: `<module>#<index> '<line>': <message>`.
    pub fn render(&self) -> (s: String)
        ensures
            s@ == diagnostic_text(self@),
    {
        let mut s = self.module.clone();
        s.append("#");
        push_decimal(&mut s, self.index);
        s.append(" '");
        s.append(self.raw.as_str());
        s.append("': ");
        s.append(self.message.as_str());
        s
    }
}

/// One parsed source line.
#[derive(Debug, PartialEq, Eq)]
pub struct Instruction {
    /// The mnemonic: the line's first word.
    pub operation: String,
    /// The line's second word, if it has one.
    pub arg1: Option<String>,
    /// The line's third word, if it has one.
    pub arg2: Option<String>,
    /// The line itself.
    pub raw: String,
    /// The source unit that the line is from.
    pub module: String,
    /// The line's position among the instructions of its module, from zero.
    pub index: usize,
    /// The function that the line stands in; `None` outside every function.
    pub frame: Option<String>,
}

/// An instruction as a value of texts and numbers.
pub struct InstructionView {
    pub operation: Seq<char>,
    pub arg1: Option<Seq<char>>,
    pub arg2: Option<Seq<char>>,
    pub raw: Seq<char>,
    pub module: Seq<char>,
    pub index: nat,
    pub frame: Option<Seq<char>>,
}

/// The text of an optional string.
pub open spec fn option_view(o: Option<String>) -> Option<Seq<char>> {
    match o {
        Some(s) => Some(s@),
        None => None,
    }
}

impl View for Instruction {
    type V = InstructionView;

    open spec fn view(&self) -> InstructionView {
        InstructionView {
            operation: self.operation@,
            arg1: option_view(self.arg1),
            arg2: option_view(self.arg2),
            raw: self.raw@,
            module: self.module@,
            index: self.index as nat,
            frame: option_view(self.frame),
        }
    }
}

/// The views of a list of instructions, in the same order.
pub open spec fn views(v: Seq<Instruction>) -> Seq<InstructionView> {
    v.map_values(|i: Instruction| i@)
}

/// The first word of `s`: what stands before its first space.
pub open spec fn head(s: Seq<char>) -> Seq<char> {
    s.take(index_of(s, ' ') as int)
}

/// What follows the first space of `s`, if it has a space.
pub open spec fn tail(s: Seq<char>) -> Option<Seq<char>> {
    if index_of(s, ' ') < s.len() {
        Some(s.skip(index_of(s, ' ') as int + 1))
    } else {
        None
    }
}

/// The first word of an optional rest of a line.
pub open spec fn head_of(rest: Option<Seq<char>>) -> Option<Seq<char>> {
    match rest {
        Some(r) => Some(head(r)),
        None => None,
    }
}

/// What follows the first word of an optional rest of a line.
pub open spec fn tail_of(rest: Option<Seq<char>>) -> Option<Seq<char>> {
    match rest {
        Some(r) => tail(r),
        None => None,
    }
}

/// The instruction that the line `s` writes: its first three words, cut at
/// single spaces, are the operation and the two arguments. Words after the
/// third are not looked at, and a word may be empty.
pub open spec fn parse_line(s: Seq<char>, index: nat, module: Seq<char>) -> InstructionView {
    InstructionView {
        operation: head(s),
        arg1: head_of(tail(s)),
        arg2: head_of(tail_of(tail(s))),
        raw: s,
        module,
        index,
        frame: None,
    }
}

/// The report on an empty line.
pub open spec fn empty_line(index: nat, module: Seq<char>) -> DiagnosticView {
    DiagnosticView {
        kind: DiagnosticKind::MalformedInstruction,
        module,
        index,
        raw: Seq::empty(),
        message: "Unable to parse empty line"@,
    }
}

/// The report of kind `kind` on the instruction `i`.
pub open spec fn diagnostic(kind: DiagnosticKind, i: InstructionView, message: Seq<char>)
    -> DiagnosticView {
    DiagnosticView { kind, module: i.module, index: i.index, raw: i.raw, message }
}

/// Whether `i` opens a function.
pub open spec fn opens_function(i: InstructionView) -> bool {
    i.operation == "function"@
}

/// The function that position `at` of a module's instructions stands in: the
/// name given by the last `function` instruction at or before `at`. `None`
/// where no function was opened yet, or where the last one has no name.
pub open spec fn enclosing_frame(module: Seq<InstructionView>, at: int) -> Option<Seq<char>>
    decreases at + 1,
{
    if at < 0 {
        None
    } else if at < module.len() && opens_function(module[at]) {
        module[at].arg1
    } else {
        enclosing_frame(module, at - 1)
    }
}

/// The name under which a frame qualifies labels.
pub open spec fn frame_name(frame: Option<Seq<char>>) -> Seq<char> {
    match frame {
        Some(name) => name,
        None => "global"@,
    }
}

/// Whether the instruction `f` opens a function that the instruction at
/// position `index` of `module` can stand in: it is a `function`
/// instruction of that module, at that position or before it.
pub open spec fn scopes(f: InstructionView, module: Seq<char>, index: nat) -> bool {
    opens_function(f) && f.module == module && f.index <= index
}

/// The function that the instruction at position `index` of `module`
/// stands in, going by a list of instructions of any modules: the name
/// given by the last instruction in the list that opens a function of
/// `module` at or before `index`. `None` where the list holds no such
/// instruction, or where the last one has no name. Instructions of other
/// modules, and those behind `index`, have no say.
pub open spec fn frame_in(list: Seq<InstructionView>, module: Seq<char>, index: nat) -> Option<
    Seq<char>,
>
    decreases list.len(),
{
    if list.len() == 0 {
        None
    } else if scopes(list.last(), module, index) {
        list.last().arg1
    } else {
        frame_in(list.drop_last(), module, index)
    }
}

/// Whether `list` holds the instructions of `module` in source order: each
/// knows the module and its own position.
pub open spec fn in_order(list: Seq<InstructionView>, module: Seq<char>) -> bool {
    forall|j: int| 0 <= j < list.len() ==> (#[trigger] list[j]).module == module && list[j].index == j
}

/// Positions past the end of a module stand in the frame of its last instruction.
pub proof fn lemma_frame_past_end(module: Seq<InstructionView>, at: int)
    requires
        at >= module.len() - 1,
    ensures
        enclosing_frame(module, at) == enclosing_frame(module, module.len() - 1),
    decreases at + 1,
{
    if at >= module.len() && at >= 0 {
        lemma_frame_past_end(module, at - 1);
    }
}

/// A `function` instruction stands in the frame it opens, and every other
/// instruction in the frame of the instruction before it.
pub proof fn lemma_frame_step(module: Seq<InstructionView>, at: int)
    requires
        0 <= at < module.len(),
    ensures
        enclosing_frame(module, at) == if opens_function(module[at]) {
            module[at].arg1
        } else {
            enclosing_frame(module, at - 1)
        },
{
}

/// The first instruction of a module that opens no function is outside every function.
pub proof fn lemma_frame_before_first_function(module: Seq<InstructionView>, at: int)
    requires
        forall|k: int| 0 <= k <= at && k < module.len() ==> !opens_function(#[trigger] module[k]),
    ensures
        enclosing_frame(module, at) is None,
    decreases at + 1,
{
    if at >= 0 {
        lemma_frame_before_first_function(module, at - 1);
    }
}

/// The frame of a position depends on the instructions up to it only.
pub proof fn lemma_frame_prefix(module: Seq<InstructionView>, m: int, at: int)
    requires
        at < m <= module.len(),
    ensures
        enclosing_frame(module.take(m), at) == enclosing_frame(module, at),
    decreases at + 1,
{
    if at >= 0 {
        lemma_frame_prefix(module, m, at - 1);
    }
}

/// The frame is `None` or the name that a `function` instruction of the
/// list gives, one of the instruction's own module and not behind it.
pub proof fn lemma_frame_in_source(list: Seq<InstructionView>, module: Seq<char>, index: nat)
    ensures
        frame_in(list, module, index) is None || exists|j: int|
            0 <= j < list.len() && scopes(#[trigger] list[j], module, index) && list[j].arg1
                == frame_in(list, module, index),
    decreases list.len(),
{
    if list.len() > 0 {
        if scopes(list.last(), module, index) {
            assert(scopes(list[list.len() - 1], module, index));
        } else {
            lemma_frame_in_source(list.drop_last(), module, index);
            if frame_in(list, module, index) is Some {
                let j = choose|j: int|
                    0 <= j < list.drop_last().len() && scopes(
                        #[trigger] list.drop_last()[j],
                        module,
                        index,
                    ) && list.drop_last()[j].arg1 == frame_in(list.drop_last(), module, index);
                assert(list[j] == list.drop_last()[j]);
            }
        }
    }
}

/// On the instructions of one module in source order, the frame by module
/// and position is the frame by place in the list.
pub proof fn lemma_frame_in_module(list: Seq<InstructionView>, module: Seq<char>, index: nat)
    requires
        in_order(list, module),
    ensures
        frame_in(list, module, index) == enclosing_frame(list, index as int),
    decreases list.len(),
{
    let n = list.len() as int;
    if n == 0 {
        lemma_frame_before_first_function(list, index as int);
    } else {
        let shorter = list.drop_last();
        assert forall|j: int| 0 <= j < shorter.len() implies (#[trigger] shorter[j]).module
            == module && shorter[j].index == j by {
            assert(shorter[j] == list[j]);
        }
        lemma_frame_in_module(shorter, module, index);
        assert(shorter =~= list.take(n - 1));
        if scopes(list.last(), module, index) {
            lemma_frame_past_end(list, index as int);
        } else if index < n - 1 {
            lemma_frame_prefix(list, n - 1, index as int);
        } else {
            lemma_frame_past_end(list, index as int);
            assert(!opens_function(list[n - 1]));
            assert(enclosing_frame(list, n - 1) == enclosing_frame(list, n - 2));
            if n >= 2 {
                lemma_frame_prefix(list, n - 1, n - 2);
                lemma_frame_past_end(shorter, index as int);
            } else {
                lemma_frame_before_first_function(shorter, index as int);
            }
        }
    }
}

impl Clone for Instruction {
    fn clone(&self) -> (r: Self)
        ensures
            r@ == self@,
    {
        Instruction {
            operation: self.operation.clone(),
            arg1: clone_text(&self.arg1),
            arg2: clone_text(&self.arg2),
            raw: self.raw.clone(),
            module: self.module.clone(),
            index: self.index,
            frame: clone_text(&self.frame),
        }
    }
}

impl Diagnostic {
    /// The report of kind `kind` on `instruction`.
    pub fn on(kind: DiagnosticKind, instruction: &Instruction, message: String) -> (d: Diagnostic)
        ensures
            d@ == diagnostic(kind, instruction@, message@),
    {
        Diagnostic {
            kind,
            module: instruction.module.clone(),
            index: instruction.index,
            raw: instruction.raw.clone(),
            message,
        }
    }
}

impl Instruction {
    /// Parses one source line, from which comments and surrounding white
    /// space were taken off. An empty line is refused.
    pub fn new(s: &str, index: usize, module: &str) -> (r: Result<Instruction, Diagnostic>)
        ensures
            s@.len() == 0 ==> (r matches Err(d) && d@ == empty_line(index as nat, module@)),
            s@.len() > 0 ==> (r matches Ok(i) && i@ == parse_line(s@, index as nat, module@)),
    {
        if s.is_empty() {
            Err(
                Diagnostic {
                    kind: DiagnosticKind::MalformedInstruction,
                    module: module.to_owned(),
                    index,
                    raw: String::new(),
                    message: "Unable to parse empty line".to_owned(),
                },
            )
        } else {
            Ok(Instruction::parse(s, index, module))
        }
    }

    /// Parses a source line that is known not to be empty.
    pub fn parse(s: &str, index: usize, module: &str) -> (i: Instruction)
        requires
            s@.len() > 0,
        ensures
            i@ == parse_line(s@, index as nat, module@),
    {
        let v = to_chars(s);
        let n = v.len();
        let k0 = find_from(&v, 0, ' ');
        assert(v@.skip(0) =~= v@);
        let operation = text_of(&v, 0, k0);
        let mut arg1: Option<String> = None;
        let mut arg2: Option<String> = None;
        if k0 < n {
            let ghost r1 = v@.skip(k0 + 1);
            let k1 = find_from(&v, k0 + 1, ' ');
            arg1 = Some(text_of(&v, k0 + 1, k1));
            assert(v@.subrange(k0 + 1, k1 as int) =~= head(r1));
            if k1 < n {
                let ghost r2 = r1.skip(index_of(r1, ' ') as int + 1);
                assert(r2 =~= v@.skip(k1 + 1));
                let k2 = find_from(&v, k1 + 1, ' ');
                arg2 = Some(text_of(&v, k1 + 1, k2));
                assert(v@.subrange(k1 + 1, k2 as int) =~= head(r2));
            }
        }
        Instruction {
            operation,
            arg1,
            arg2,
            raw: s.to_owned(),
            module: module.to_owned(),
            index,
            frame: None,
        }
    }

    /// Resolves the frame of this instruction from a list of instructions:
    /// the function opened last in the list, among the `function`
    /// instructions of this instruction's own module that stand at its
    /// position or before it. Instructions of other modules never give a
    /// frame. Nothing but the frame changes.
    pub fn set_frame(&mut self, instructions: &Vec<Instruction>)
        ensures
            final(self)@ == (InstructionView {
                frame: frame_in(views(instructions@), old(self)@.module, old(self)@.index),
                ..old(self)@
            }),
            final(self)@.frame is None || exists|j: int|
                0 <= j < instructions@.len() && scopes(
                    #[trigger] views(instructions@)[j],
                    old(self)@.module,
                    old(self)@.index,
                ) && views(instructions@)[j].arg1 == final(self)@.frame,
    {
        let ghost list = views(instructions@);
        proof {
            lemma_frame_in_source(list, self@.module, self@.index);
        }
        let mut k: usize = instructions.len();
        assert(list.take(k as int) =~= list);
        while k > 0
            invariant
                k <= instructions.len(),
                list == views(instructions@),
                frame_in(list, self@.module, self@.index) == frame_in(
                    list.take(k as int),
                    self@.module,
                    self@.index,
                ),
                *self == *old(self),
            decreases k,
        {
            k -= 1;
            let other = &instructions[k];
            proof {
                assert(list.take(k + 1).drop_last() =~= list.take(k as int));
                assert(list.take(k + 1).last() == other@);
            }
            if other.index <= self.index && equals(other.operation.as_str(), "function") && equals(
                other.module.as_str(),
                self.module.as_str(),
            ) {
                self.frame = clone_text(&other.arg1);
                return;
            }
        }
        self.frame = None;
    }
}

} // verus!
