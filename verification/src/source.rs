//! From the text of a source unit to its instruction lines: comments are cut
//! off, white space around a line is taken away, and lines that are then
//! empty are left out.

use crate::text::{find_from, index_of, is_space, is_whitespace, lemma_index_of, text_of, to_chars};
use vstd::prelude::*;

verus! {

/// Where the comment of a line starts: the position of its first `//`, or
/// the length of the line if it has none.
pub open spec fn comment_start(line: Seq<char>) -> int
    decreases line.len(),
{
    if line.len() < 2 {
        line.len() as int
    } else if line[0] == '/' && line[1] == '/' {
        0
    } else {
        1 + comment_start(line.skip(1))
    }
}

/// A line without its comment.
pub open spec fn strip_comment(line: Seq<char>) -> Seq<char> {
    line.take(comment_start(line))
}

/// A line without the white space it starts with.
pub open spec fn trim_start(line: Seq<char>) -> Seq<char>
    decreases line.len(),
{
    if line.len() > 0 && is_space(line[0]) {
        trim_start(line.skip(1))
    } else {
        line
    }
}

/// A line without the white space it ends with.
pub open spec fn trim_end(line: Seq<char>) -> Seq<char>
    decreases line.len(),
{
    if line.len() > 0 && is_space(line.last()) {
        trim_end(line.drop_last())
    } else {
        line
    }
}

/// A line without the white space around it.
pub open spec fn trim(line: Seq<char>) -> Seq<char> {
    trim_end(trim_start(line))
}

/// What a line says once its comment and the white space around the rest are gone.
pub open spec fn clean_line(line: Seq<char>) -> Seq<char> {
    trim(strip_comment(line))
}

/// The instruction lines of a source text: its lines, cut at newlines and
/// cleaned, without those that are empty after cleaning.
pub open spec fn clean_lines(source: Seq<char>) -> Seq<Seq<char>>
    decreases source.len(),
{
    if source.len() == 0 {
        Seq::empty()
    } else {
        let end = index_of(source, '\n') as int;
        let line = clean_line(source.take(end));
        let rest = if end < source.len() {
            clean_lines(source.skip(end + 1))
        } else {
            Seq::empty()
        };
        if line.len() > 0 {
            seq![line] + rest
        } else {
            rest
        }
    }
}

/// The texts of a list of strings, in the same order.
pub open spec fn texts(v: Seq<String>) -> Seq<Seq<char>> {
    v.map_values(|s: String| s@)
}

/// What is left of a line that lost the white space it started with is no
/// longer than the line and does not start with white space.
pub proof fn lemma_trim_start(line: Seq<char>)
    ensures
        trim_start(line).len() <= line.len(),
        trim_start(line).len() > 0 ==> !is_space(trim_start(line)[0]),
    decreases line.len(),
{
    if line.len() > 0 && is_space(line[0]) {
        lemma_trim_start(line.skip(1));
    }
}

/// What is left of a line that lost the white space it ended with is the
/// start of the line and does not end with white space.
pub proof fn lemma_trim_end(line: Seq<char>)
    ensures
        trim_end(line).len() <= line.len(),
        trim_end(line).len() > 0 ==> !is_space(trim_end(line).last()),
        trim_end(line) == line.take(trim_end(line).len() as int),
    decreases line.len(),
{
    if line.len() > 0 && is_space(line.last()) {
        lemma_trim_end(line.drop_last());
        assert(line.drop_last().take(trim_end(line).len() as int) =~= line.take(
            trim_end(line).len() as int,
        ));
    } else {
        assert(line.take(line.len() as int) =~= line);
    }
}

/// A cleaned line that is not empty starts and ends with a character that is no white space.
pub proof fn lemma_clean_line_trimmed(line: Seq<char>)
    ensures
        clean_line(line).len() > 0 ==> !is_space(clean_line(line)[0]) && !is_space(
            clean_line(line).last(),
        ),
{
    let a = trim_start(strip_comment(line));
    lemma_trim_start(strip_comment(line));
    lemma_trim_end(a);
}

/// Every instruction line is non-empty and has no white space at either end.
pub proof fn lemma_clean_lines_trimmed(source: Seq<char>, i: int)
    requires
        0 <= i < clean_lines(source).len(),
    ensures
        clean_lines(source)[i].len() > 0,
        !is_space(clean_lines(source)[i][0]),
        !is_space(clean_lines(source)[i].last()),
    decreases source.len(),
{
    let end = index_of(source, '\n') as int;
    lemma_index_of(source, '\n');
    let line = clean_line(source.take(end));
    lemma_clean_line_trimmed(source.take(end));
    if line.len() > 0 {
        if i > 0 {
            lemma_clean_lines_trimmed(source.skip(end + 1), i - 1);
        }
    } else {
        lemma_clean_lines_trimmed(source.skip(end + 1), i);
    }
}

/// The bounds, within `v`, of the cleaned form of the line `v[from..end]`.
fn clean_bounds(v: &Vec<char>, from: usize, end: usize) -> (r: (usize, usize))
    requires
        from <= end <= v.len(),
    ensures
        from <= r.0 <= r.1 <= end,
        v@.subrange(r.0 as int, r.1 as int) == clean_line(v@.subrange(from as int, end as int)),
{
    let ghost line = v@.subrange(from as int, end as int);
    let mut c: usize = from;
    while end - c >= 2 && !(v[c] == '/' && v[c + 1] == '/')
        invariant
            from <= c <= end <= v.len(),
            comment_start(v@.subrange(from as int, end as int)) == (c - from) + comment_start(
                v@.subrange(c as int, end as int),
            ),
        decreases end - c,
    {
        assert(v@.subrange(c as int, end as int).skip(1) =~= v@.subrange(c + 1, end as int));
        c += 1;
    }
    if end - c < 2 {
        c = end;
    }
    let ghost code = v@.subrange(from as int, c as int);
    assert(code =~= strip_comment(line));
    let mut lo: usize = from;
    while lo < c && is_whitespace(v[lo])
        invariant
            from <= lo <= c <= v.len(),
            trim_start(v@.subrange(from as int, c as int)) == trim_start(
                v@.subrange(lo as int, c as int),
            ),
        decreases c - lo,
    {
        assert(v@.subrange(lo as int, c as int).skip(1) =~= v@.subrange(lo + 1, c as int));
        lo += 1;
    }
    let mut hi: usize = c;
    while hi > lo && is_whitespace(v[hi - 1])
        invariant
            lo <= hi <= c <= v.len(),
            trim_end(v@.subrange(lo as int, c as int)) == trim_end(
                v@.subrange(lo as int, hi as int),
            ),
        decreases hi,
    {
        assert(v@.subrange(lo as int, hi as int).drop_last() =~= v@.subrange(lo as int, hi - 1));
        hi -= 1;
    }
    (lo, hi)
}

/// The text `text` without the white space at its end.
pub fn trimmed_end(text: &str) -> (s: String)
    ensures
        s@ == trim_end(text@),
{
    let v = to_chars(text);
    let mut hi: usize = v.len();
    assert(v@.subrange(0, hi as int) =~= v@);
    while hi > 0 && is_whitespace(v[hi - 1])
        invariant
            hi <= v.len(),
            trim_end(v@) == trim_end(v@.subrange(0, hi as int)),
        decreases hi,
    {
        assert(v@.subrange(0, hi as int).drop_last() =~= v@.subrange(0, hi - 1));
        hi -= 1;
    }
    text_of(&v, 0, hi)
}

/// The instruction lines of a source text, in source order: each line
/// without its comment and without the white space around it, empty lines
/// left out.
pub fn parse_contents(contents: &str) -> (lines: Vec<String>)
    ensures
        texts(lines@) == clean_lines(contents@),
{
    let v = to_chars(contents);
    let n = v.len();
    let mut lines: Vec<String> = Vec::new();
    let mut pos: usize = 0;
    assert(v@.skip(0) =~= v@);
    assert(texts(lines@) =~= Seq::<Seq<char>>::empty());
    while pos < n
        invariant
            pos <= n,
            n == v.len(),
            v@ == contents@,
            texts(lines@) + clean_lines(v@.skip(pos as int)) == clean_lines(v@),
        decreases n - pos,
    {
        let ghost rest = v@.skip(pos as int);
        let ghost before = texts(lines@);
        let end = find_from(&v, pos, '\n');
        let (lo, hi) = clean_bounds(&v, pos, end);
        assert(rest.take(end - pos) =~= v@.subrange(pos as int, end as int));
        if lo < hi {
            let line = text_of(&v, lo, hi);
            lines.push(line);
            assert(texts(lines@) =~= before + seq![line@]);
        }
        if end < n {
            assert(rest.skip(end - pos + 1) =~= v@.skip(end + 1));
            pos = end + 1;
        } else {
            assert(v@.skip(n as int) =~= Seq::<char>::empty());
            pos = n;
        }
        assert(texts(lines@) + clean_lines(v@.skip(pos as int)) =~= clean_lines(v@));
    }
    assert(v@.skip(n as int) =~= Seq::<char>::empty());
    assert(texts(lines@) + clean_lines(v@.skip(pos as int)) =~= texts(lines@));
    lines
}

} // verus!
