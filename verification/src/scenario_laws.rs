//! Laws about source texts that are written word by word: what the lines
//! and the instructions of such a text are, and with them the translation
//! of a small program from its text to what it leaves on the stack.

use crate::arithmetic::binary_comp;
use crate::assembly::Line;
use crate::collision_laws::lemma_mnemonics;
use crate::execution::{reaches, resolves, State};
use crate::instruction::{
    head, lemma_frame_before_first_function, parse_line, tail, DiagnosticView, InstructionView,
};
use crate::linkage::{function_call, function_declaration, return_label};
use crate::linkage_laws::{args_of, call_and_function, lemma_round_trip_alone, locals_of};
use crate::machine::{run, straight, Machine, Symbols};
use crate::memory::{memory_access, MAX_OFFSET};
use crate::namespace_laws::{lemma_function_names_apart, plain_function};
use crate::resolution_laws::symbols_of;
use crate::round_trip_laws::lemma_program_operates_on_constants;
use crate::source::{clean_line, clean_lines, comment_start, strip_comment, trim_end, trim_start};
use crate::stack_laws::{offset_of, operator, registers_end, stack_pointer};
use crate::templates::bootstrap;
use crate::text::{
    digit_value, digits_value, index_of, is_digit, is_space, lemma_index_of_unique, parse_unsigned,
    unsigned_digits,
};
use crate::translate::{
    listing, module_instructions, parsed_module, program_instructions, translated,
};
use vstd::prelude::*;

verus! {

/// A word: one or more characters, none of them white space or a slash.
pub open spec fn plain_word(w: Seq<char>) -> bool {
    &&& w.len() > 0
    &&& forall|j: int| 0 <= j < w.len() ==> !is_space(#[trigger] w[j]) && w[j] != '/'
}

/// A line: one or more characters, the first and the last no white space,
/// none of them a line break or a slash.
pub open spec fn plain_line(line: Seq<char>) -> bool {
    &&& line.len() > 0
    &&& !is_space(line[0])
    &&& !is_space(line.last())
    &&& forall|j: int| 0 <= j < line.len() ==> (#[trigger] line[j]) != '\n' && line[j] != '/'
}

/// Three words with single spaces between them.
pub open spec fn three_words(a: Seq<char>, b: Seq<char>, c: Seq<char>) -> Seq<char> {
    a.push(' ') + (b.push(' ') + c)
}

/// The first `c` of a text that has none in its first part stands right
/// behind that part.
pub proof fn lemma_index_of_join(a: Seq<char>, rest: Seq<char>, c: char)
    requires
        forall|j: int| 0 <= j < a.len() ==> (#[trigger] a[j]) != c,
    ensures
        index_of(a.push(c) + rest, c) == a.len(),
        (a.push(c) + rest).take(a.len() as int) == a,
        (a.push(c) + rest).skip(a.len() as int + 1) == rest,
        index_of(a, c) == a.len(),
{
    let t = a.push(c) + rest;
    assert forall|j: int| 0 <= j < a.len() implies t[j] != c by {
        assert(t[j] == a[j]);
    }
    assert(t[a.len() as int] == c);
    lemma_index_of_unique(t, c, a.len() as int);
    lemma_index_of_unique(a, c, a.len() as int);
    assert(t.take(a.len() as int) =~= a);
    assert(t.skip(a.len() as int + 1) =~= rest);
}

/// A line of three words is parsed into the three words.
pub proof fn lemma_parse_three_words(
    a: Seq<char>,
    b: Seq<char>,
    c: Seq<char>,
    index: nat,
    module: Seq<char>,
)
    requires
        plain_word(a),
        plain_word(b),
        plain_word(c),
    ensures
        parse_line(three_words(a, b, c), index, module) == (InstructionView {
            operation: a,
            arg1: Some(b),
            arg2: Some(c),
            raw: three_words(a, b, c),
            module,
            index,
            frame: None,
        }),
{
    assert(is_space(' '));
    let rest = b.push(' ') + c;
    lemma_index_of_join(a, rest, ' ');
    lemma_index_of_join(b, c, ' ');
    lemma_index_of_join(c, Seq::empty(), ' ');
    let line = three_words(a, b, c);
    assert(head(line) == a);
    assert(tail(line) == Some(rest));
    assert(head(rest) == b);
    assert(tail(rest) == Some(c));
    assert(c.take(c.len() as int) =~= c);
    assert(head(c) == c);
}

/// A line of one word is parsed into that word, without arguments.
pub proof fn lemma_parse_one_word(a: Seq<char>, index: nat, module: Seq<char>)
    requires
        plain_word(a),
    ensures
        parse_line(a, index, module) == (InstructionView {
            operation: a,
            arg1: None,
            arg2: None,
            raw: a,
            module,
            index,
            frame: None,
        }),
{
    assert(is_space(' '));
    lemma_index_of_join(a, Seq::empty(), ' ');
    assert(a.take(a.len() as int) =~= a);
}

/// Words make plain lines: one word by itself, and three words with spaces
/// between them.
pub proof fn lemma_words_make_lines(a: Seq<char>, b: Seq<char>, c: Seq<char>)
    requires
        plain_word(a),
        plain_word(b),
        plain_word(c),
    ensures
        plain_line(a),
        plain_line(three_words(a, b, c)),
{
    assert(is_space('\n'));
    let line = three_words(a, b, c);
    assert(line.len() == a.len() + b.len() + c.len() + 2);
    assert(line[0] == a[0]);
    assert(line.last() == c[c.len() - 1]);
    assert forall|j: int| 0 <= j < line.len() implies (#[trigger] line[j]) != '\n' && line[j]
        != '/' by {
        if j < a.len() {
            assert(line[j] == a[j]);
        } else if j == a.len() {
        } else if j < a.len() + 1 + b.len() {
            assert(line[j] == b[j - a.len() - 1]);
        } else if j == a.len() + 1 + b.len() {
        } else {
            assert(line[j] == c[j - a.len() - b.len() - 2]);
        }
    }
}

/// A text without two slashes in a row has no comment.
pub proof fn lemma_no_comment(line: Seq<char>)
    requires
        forall|j: int| 0 <= j < line.len() ==> (#[trigger] line[j]) != '/',
    ensures
        comment_start(line) == line.len(),
    decreases line.len(),
{
    if line.len() >= 2 {
        assert(line[0] != '/');
        assert forall|j: int| 0 <= j < line.skip(1).len() implies (#[trigger] line.skip(1)[j])
            != '/' by {
            assert(line.skip(1)[j] == line[j + 1]);
        }
        lemma_no_comment(line.skip(1));
    }
}

/// A plain line is left as it is when it is cleaned.
pub proof fn lemma_clean_line_plain(line: Seq<char>)
    requires
        plain_line(line),
    ensures
        clean_line(line) == line,
{
    lemma_no_comment(line);
    assert(line.take(line.len() as int) =~= line);
    assert(strip_comment(line) == line);
    assert(trim_start(line) == line);
    assert(trim_end(line) == line);
}

/// The instruction lines of a text that has a plain line first, then a
/// line break, are that line and the instruction lines of the rest.
pub proof fn lemma_clean_lines_first(line: Seq<char>, rest: Seq<char>)
    requires
        plain_line(line),
    ensures
        clean_lines(line.push('\n') + rest) == Seq::empty().push(line) + clean_lines(rest),
{
    lemma_index_of_join(line, rest, '\n');
    lemma_clean_line_plain(line);
    let t = line.push('\n') + rest;
    assert(t.len() > 0);
    assert(index_of(t, '\n') < t.len());
}

/// The instruction lines of a text that is one plain line are that line.
pub proof fn lemma_clean_lines_last(line: Seq<char>)
    requires
        plain_line(line),
    ensures
        clean_lines(line) == Seq::empty().push(line),
{
    lemma_index_of_join(line, Seq::empty(), '\n');
    lemma_clean_line_plain(line);
    assert(line.take(line.len() as int) =~= line);
    assert(Seq::empty().push(line) + Seq::<Seq<char>>::empty() =~= Seq::empty().push(line));
}

/// Three lines with line breaks between them.
pub open spec fn three_lines(l1: Seq<char>, l2: Seq<char>, l3: Seq<char>) -> Seq<char> {
    l1.push('\n') + (l2.push('\n') + l3)
}

/// The instruction lines of three plain lines are the three lines.
pub proof fn lemma_clean_three_lines(l1: Seq<char>, l2: Seq<char>, l3: Seq<char>)
    requires
        plain_line(l1),
        plain_line(l2),
        plain_line(l3),
    ensures
        clean_lines(three_lines(l1, l2, l3)) == Seq::empty().push(l1).push(l2).push(l3),
{
    lemma_clean_lines_first(l1, l2.push('\n') + l3);
    lemma_clean_lines_first(l2, l3);
    lemma_clean_lines_last(l3);
    let one = Seq::<Seq<char>>::empty().push(l1);
    let two = Seq::<Seq<char>>::empty().push(l2);
    let three = Seq::<Seq<char>>::empty().push(l3);
    assert(one + (two + three) =~= Seq::empty().push(l1).push(l2).push(l3));
}

/// The instructions of a program of one module are those of the module.
pub proof fn lemma_one_module(module: Seq<char>, source: Seq<char>)
    ensures
        program_instructions(Seq::empty().push((module, source))) == module_instructions(
            module,
            source,
        ),
{
    let units = Seq::<(Seq<char>, Seq<char>)>::empty().push((module, source));
    assert(units.drop_last() =~= Seq::empty());
    assert(program_instructions(units.drop_last()) =~= Seq::<InstructionView>::empty());
    assert(Seq::<InstructionView>::empty() + module_instructions(module, source)
        =~= module_instructions(module, source));
}

/// The program whose one module pushes two constants and combines them:
/// `push constant x`, `push constant y` and a binary operator, each on a
/// line of its own.
pub open spec fn sum_text(x: Seq<char>, y: Seq<char>, op: Seq<char>) -> Seq<char> {
    three_lines(
        three_words("push"@, "constant"@, x),
        three_words("push"@, "constant"@, y),
        op,
    )
}

/// The words of the language that the laws of this module speak of are
/// plain words.
pub proof fn lemma_plain_words()
    ensures
        plain_word("push"@),
        plain_word("constant"@),
        plain_word("add"@),
        plain_word("sub"@),
        plain_word("and"@),
        plain_word("or"@),
{
    reveal_strlit("push");
    reveal_strlit("constant");
    reveal_strlit("add");
    reveal_strlit("sub");
    reveal_strlit("and");
    reveal_strlit("or");
    assert forall|j: int| 0 <= j < "push"@.len() implies !is_space(#[trigger] "push"@[j])
        && "push"@[j] != '/' by {
        assert(j == 0 || j == 1 || j == 2 || j == 3);
    }
    assert forall|j: int| 0 <= j < "constant"@.len() implies !is_space(
        #[trigger] "constant"@[j],
    ) && "constant"@[j] != '/' by {
        assert(j == 0 || j == 1 || j == 2 || j == 3 || j == 4 || j == 5 || j == 6 || j == 7);
    }
    assert forall|j: int| 0 <= j < "add"@.len() implies !is_space(#[trigger] "add"@[j])
        && "add"@[j] != '/' by {
        assert(j == 0 || j == 1 || j == 2);
    }
    assert forall|j: int| 0 <= j < "sub"@.len() implies !is_space(#[trigger] "sub"@[j])
        && "sub"@[j] != '/' by {
        assert(j == 0 || j == 1 || j == 2);
    }
    assert forall|j: int| 0 <= j < "and"@.len() implies !is_space(#[trigger] "and"@[j])
        && "and"@[j] != '/' by {
        assert(j == 0 || j == 1 || j == 2);
    }
    assert forall|j: int| 0 <= j < "or"@.len() implies !is_space(#[trigger] "or"@[j]) && "or"@[j]
        != '/' by {
        assert(j == 0 || j == 1);
    }
}

/// A program of one module that pushes two constants and combines them by
/// a binary operator translates to the bootstrap and three fragments; the
/// fragments, run in order, leave one cell more on the stack than there
/// was, and it holds the operator applied to the first and the second
/// constant, in this order.
#[verifier::rlimit(40)]
pub proof fn lemma_sum_program(
    module: Seq<char>,
    x: Seq<char>,
    y: Seq<char>,
    op: Seq<char>,
    m: Machine,
    symbols: Symbols,
)
    requires
        plain_word(x),
        plain_word(y),
        parse_unsigned(x, MAX_OFFSET as nat) is Some,
        parse_unsigned(y, MAX_OFFSET as nat) is Some,
        binary_comp(op) is Some,
        stack_pointer(m) >= registers_end(),
        stack_pointer(m) + 2 < 0x10000,
    ensures
        ({
            let units = Seq::empty().push((module, sum_text(x, y, op)));
            let fragments = listing(program_instructions(units));
            let end = run(m, fragments, symbols);
            &&& program_instructions(units).len() == 3
            &&& translated(units) == Ok::<Seq<Line>, Seq<DiagnosticView>>(bootstrap() + fragments)
            &&& straight(fragments)
            &&& stack_pointer(end) == stack_pointer(m) + 1
            &&& end.ram[stack_pointer(m)] == operator(
                op,
                parse_unsigned(x, MAX_OFFSET as nat)->0 as u16,
                parse_unsigned(y, MAX_OFFSET as nat)->0 as u16,
            )
        }),
{
    lemma_plain_words();
    lemma_mnemonics();
    let l1 = three_words("push"@, "constant"@, x);
    let l2 = three_words("push"@, "constant"@, y);
    let source = sum_text(x, y, op);
    let units = Seq::empty().push((module, source));
    lemma_words_make_lines("push"@, "constant"@, x);
    lemma_words_make_lines("push"@, "constant"@, y);
    lemma_words_make_lines(op, "constant"@, x);
    lemma_clean_three_lines(l1, l2, op);
    lemma_parse_three_words("push"@, "constant"@, x, 0, module);
    lemma_parse_three_words("push"@, "constant"@, y, 1, module);
    lemma_parse_one_word(op, 2, module);
    lemma_one_module(module, source);
    let parsed = parsed_module(module, source);
    let instructions = program_instructions(units);
    assert(parsed.len() == 3);
    assert(parsed[0] == parse_line(l1, 0, module));
    assert(parsed[1] == parse_line(l2, 1, module));
    assert(parsed[2] == parse_line(op, 2, module));
    lemma_frame_before_first_function(parsed, 2);
    assert(instructions.len() == 3);
    assert(instructions[0] == parsed[0]) by {
        lemma_frame_before_first_function(parsed, 0);
    }
    assert(instructions[1] == parsed[1]) by {
        lemma_frame_before_first_function(parsed, 1);
    }
    assert(instructions[2] == parsed[2]);
    lemma_program_operates_on_constants(units, m, symbols);
}

/// A numeral of one digit is read as that digit.
pub proof fn lemma_parse_one_digit(d: char, max: nat)
    requires
        is_digit(d),
        digit_value(d) <= max,
    ensures
        plain_word(Seq::empty().push(d)),
        parse_unsigned(Seq::empty().push(d), max) == Some(digit_value(d)),
{
    let w = Seq::<char>::empty().push(d);
    assert(w.drop_last() =~= Seq::<char>::empty());
    assert(digits_value(w.drop_last()) == 0);
    assert(digits_value(w) == digit_value(d));
    assert(unsigned_digits(w) == w);
}

/// The program `push constant 7`, `push constant 8`, `add` translates to
/// the bootstrap and three fragments; the fragments, run in order from a
/// state whose stack lies above the registers, leave 15 in the cell that
/// the stack pointer addressed, and the stack pointer one above it.
#[verifier::rlimit(40)]
pub proof fn lemma_seven_plus_eight(module: Seq<char>, m: Machine, symbols: Symbols)
    requires
        stack_pointer(m) >= registers_end(),
        stack_pointer(m) + 2 < 0x10000,
    ensures
        ({
            let units = Seq::empty().push((module, "push constant 7\npush constant 8\nadd"@));
            let fragments = listing(program_instructions(units));
            let end = run(m, fragments, symbols);
            &&& program_instructions(units).len() == 3
            &&& translated(units) == Ok::<Seq<Line>, Seq<DiagnosticView>>(bootstrap() + fragments)
            &&& straight(fragments)
            &&& stack_pointer(end) == stack_pointer(m) + 1
            &&& end.ram[stack_pointer(m)] == 15
        }),
{
    reveal_strlit("push constant 7\npush constant 8\nadd");
    reveal_strlit("push");
    reveal_strlit("constant");
    reveal_strlit("add");
    let source = "push constant 7\npush constant 8\nadd"@;
    let seven = Seq::<char>::empty().push('7');
    let eight = Seq::<char>::empty().push('8');
    let written = sum_text(seven, eight, "add"@);
    assert(source.len() == written.len());
    assert forall|j: int| 0 <= j < source.len() implies source[j] == written[j] by {
        assert(j == 0 || j == 1 || j == 2 || j == 3 || j == 4 || j == 5 || j == 6 || j == 7 || j == 8 || j == 9 || j == 10 || j == 11 || j == 12 || j == 13 || j == 14 || j == 15 || j == 16 || j == 17 || j == 18 || j == 19 || j == 20 || j == 21 || j == 22 || j == 23 || j == 24 || j == 25 || j == 26 || j == 27 || j == 28 || j == 29 || j == 30 || j == 31 || j == 32 || j == 33 || j == 34);
    }
    assert(source =~= written);
    lemma_parse_one_digit('7', MAX_OFFSET as nat);
    lemma_parse_one_digit('8', MAX_OFFSET as nat);
    lemma_sum_program(module, seven, eight, "add"@, m, symbols);
}

/// The numbers in a call without arguments, a function without local
/// cells and a push of the constant 5.
pub proof fn lemma_numbers_of_call_of_five(
    caller: InstructionView,
    opening: InstructionView,
    pushing: InstructionView,
)
    requires
        caller.arg1 is Some,
        caller.arg2 == Some("0"@),
        opening.arg1 is Some,
        opening.arg2 == Some("0"@),
        pushing.operation == "push"@,
        pushing.arg1 == Some("constant"@),
        pushing.arg2 == Some("5"@),
    ensures
        function_call(caller) is Ok,
        function_declaration(opening) is Ok,
        memory_access(pushing) is Ok,
        args_of(caller) == 0,
        locals_of(opening) == 0,
        offset_of(pushing) == 5,
{
    reveal_strlit("0");
    reveal_strlit("5");
    assert("0"@ =~= Seq::<char>::empty().push('0'));
    assert("5"@ =~= Seq::<char>::empty().push('5'));
    lemma_parse_one_digit('0', usize::MAX as nat);
    lemma_parse_one_digit('5', MAX_OFFSET as nat);
}

/// A call without arguments of a function without local cells that
/// pushes the constant 5 and returns, taken by itself: in the program that
/// holds the listing of the call and then the listings of `function`, of
/// `push constant 5` and of `return`, assembled with the program's own
/// symbol table, the machine gets from the first line of the call to
/// behind its return label. The stack pointer is then one above where it
/// was before the call, the cell that it addressed before the call holds
/// 5, and the cells of the stack below it and the four segment pointers
/// are what they were.
#[verifier::rlimit(40)]
pub proof fn lemma_call_of_five(
    caller: InstructionView,
    opening: InstructionView,
    pushing: InstructionView,
    m: Machine,
)
    requires
        caller.arg1 is Some,
        plain_function(caller.arg1->0),
        caller.arg2 == Some("0"@),
        opening.arg1 == caller.arg1,
        opening.arg2 == Some("0"@),
        pushing.operation == "push"@,
        pushing.arg1 == Some("constant"@),
        pushing.arg2 == Some("5"@),
        stack_pointer(m) >= registers_end(),
        stack_pointer(m) + 6 < 0x10000,
    ensures
        function_call(caller) is Ok,
        function_declaration(opening) is Ok,
        memory_access(pushing) is Ok,
        ({
            let code = call_and_function(caller, opening, pushing);
            let s = stack_pointer(m);
            let behind = function_call(caller)->Ok_0.len() as int;
            &&& resolves(code, symbols_of(code))
            &&& code[behind - 1] == Line::Label(
                return_label(caller.module, caller.frame, caller.index),
            )
            &&& exists|end: Machine|
                {
                    &&& #[trigger] reaches(
                        code,
                        State { machine: m, at: 0 },
                        State { machine: end, at: behind },
                        symbols_of(code),
                    )
                    &&& stack_pointer(end) == s + 1
                    &&& end.ram[s] == 5
                    &&& end.ram[1] == m.ram[1]
                    &&& end.ram[2] == m.ram[2]
                    &&& end.ram[3] == m.ram[3]
                    &&& end.ram[4] == m.ram[4]
                    &&& forall|c: u16| registers_end() <= c < s ==> end.ram[c] == m.ram[c]
                }
        }),
{
    lemma_numbers_of_call_of_five(caller, opening, pushing);
    lemma_function_names_apart(
        caller.arg1->0,
        caller.module,
        caller.frame,
        Seq::empty(),
        caller.index,
    );
    lemma_round_trip_alone(caller, opening, pushing, m);
}

} // verus!
