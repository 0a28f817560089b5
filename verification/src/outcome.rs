//! What a code generator hands back: the text of a listing, or a diagnostic.

use crate::assembly::{render, Emitter, Line};
use crate::instruction::{diagnostic, Diagnostic, DiagnosticKind, DiagnosticView, Instruction};
use crate::text::{decimal, push_decimal};
use vstd::prelude::*;
use vstd::string::*;

verus! {

/// `result` is what `expected` asks for: the text of the listing, or the
/// diagnostic, field by field.
pub open spec fn renders(
    result: Result<String, Diagnostic>,
    expected: Result<Seq<Line>, DiagnosticView>,
) -> bool {
    match expected {
        Ok(code) => result matches Ok(text) && text@ == render(code),
        Err(d) => result matches Err(e) && e@ == d,
    }
}

/// `text` between quotes, with words before and after.
pub open spec fn quoted(before: Seq<char>, text: Seq<char>, after: Seq<char>) -> Seq<char> {
    before + text + after
}

/// The text `text` with the words `before` and `after` around it.
pub fn quote(before: &str, text: &str, after: &str) -> (s: String)
    ensures
        s@ == quoted(before@, text@, after@),
{
    let mut s = String::new();
    s.append(before);
    s.append(text);
    s.append(after);
    assert(s@ =~= quoted(before@, text@, after@));
    s
}

/// The text `text` with the words `before` in front of it.
pub fn prefixed(before: &str, text: &str) -> (s: String)
    ensures
        s@ == before@ + text@,
{
    let mut s = String::new();
    s.append(before);
    s.append(text);
    assert(s@ =~= before@ + text@);
    s
}

/// The decimal numeral of `n` as a text of its own.
pub fn numeral(n: usize) -> (s: String)
    ensures
        s@ == decimal(n as nat),
{
    let mut s = String::new();
    push_decimal(&mut s, n);
    assert(s@ =~= decimal(n as nat));
    s
}

/// Hands back the text that `e` wrote.
pub fn done(e: Emitter) -> (r: Result<String, Diagnostic>)
    requires
        e.wf(),
    ensures
        r matches Ok(text) && text@ == render(e.code()),
{
    Ok(e.finish())
}

/// Hands back a diagnostic on `instruction`.
pub fn fail(kind: DiagnosticKind, instruction: &Instruction, message: String) -> (r: Result<
    String,
    Diagnostic,
>)
    ensures
        r matches Err(d) && d@ == diagnostic(kind, instruction@, message@),
{
    Err(Diagnostic::on(kind, instruction, message))
}

} // verus!
