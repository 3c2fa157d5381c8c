use crate::text::{first_newline, joined, strip_return, text_lines};
use vstd::prelude::*;

verus! {

/// A line that comes back as it is when it is written and read again: it
/// holds no newline and does not end with a carriage return.
pub open spec fn plain_line(line: Seq<char>) -> bool {
    &&& forall|i: int| 0 <= i < line.len() ==> line[i] != '\n'
    &&& line.len() > 0 ==> line.last() != '\r'
}

/// Each of `lines` is a plain line.
pub open spec fn plain_lines(lines: Seq<Seq<char>>) -> bool {
    forall|i: int| 0 <= i < lines.len() ==> plain_line(#[trigger] lines[i])
}

/// A text whose last line, if it has one, ends with a newline.
pub open spec fn terminated(s: Seq<char>) -> bool {
    s.len() == 0 || s.last() == '\n'
}

/// The first newline is a newline, and none stands before it.
pub proof fn lemma_first_newline_is_first(s: Seq<char>)
    ensures
        0 <= first_newline(s) <= s.len(),
        first_newline(s) < s.len() ==> s[first_newline(s)] == '\n',
        forall|i: int| 0 <= i < first_newline(s) ==> s[i] != '\n',
    decreases s.len(),
{
    if s.len() > 0 && s[0] != '\n' {
        let rest = s.drop_first();
        lemma_first_newline_is_first(rest);
        assert forall|i: int| 0 <= i < first_newline(s) implies s[i] != '\n' by {
            if i > 0 {
                assert(s[i] == rest[i - 1]);
            }
        }
    }
}

/// What follows a text does not move the first newline of the text.
pub proof fn lemma_first_newline_front(a: Seq<char>, x: Seq<char>)
    requires
        first_newline(a) < a.len(),
    ensures
        first_newline(a + x) == first_newline(a),
    decreases a.len(),
{
    lemma_first_newline_is_first(a);
    if a[0] != '\n' {
        assert((a + x).drop_first() =~= a.drop_first() + x);
        assert((a + x)[0] == a[0]);
        lemma_first_newline_front(a.drop_first(), x);
    } else {
        assert((a + x)[0] == '\n');
    }
}

/// The first newline after a line without newlines is the one that ends it.
proof fn lemma_first_newline_after(line: Seq<char>, rest: Seq<char>)
    requires
        forall|i: int| 0 <= i < line.len() ==> line[i] != '\n',
    ensures
        first_newline(line.push('\n') + rest) == line.len(),
    decreases line.len(),
{
    let s = line.push('\n') + rest;
    if line.len() == 0 {
        assert(s[0] == '\n');
    } else {
        assert(s[0] == line[0]);
        assert(s.drop_first() =~= line.drop_first().push('\n') + rest);
        assert forall|i: int| 0 <= i < line.drop_first().len() implies line.drop_first()[i]
            != '\n' by {
            assert(line.drop_first()[i] == line[i + 1]);
        }
        lemma_first_newline_after(line.drop_first(), rest);
    }
}

/// A plain line that was written with its newline is read back as it was,
/// before the lines of what follows.
pub proof fn lemma_lines_after_line(line: Seq<char>, rest: Seq<char>)
    requires
        plain_line(line),
    ensures
        text_lines(line.push('\n') + rest) == seq![line] + text_lines(rest),
{
    let s = line.push('\n') + rest;
    let n = line.len() as int;
    lemma_first_newline_after(line, rest);
    assert(s.take(n) =~= line);
    assert(s.skip(n + 1) =~= rest);
    assert(strip_return(line) == line);
}

/// Plain lines that were written are read back as they were, before the
/// lines of what follows.
pub proof fn lemma_lines_of_joined(lines: Seq<Seq<char>>, rest: Seq<char>)
    requires
        plain_lines(lines),
    ensures
        text_lines(joined(lines) + rest) == lines + text_lines(rest),
    decreases lines.len(),
{
    if lines.len() == 0 {
        assert(joined(lines) + rest =~= rest);
        assert(lines + text_lines(rest) =~= text_lines(rest));
    } else {
        let init = lines.drop_last();
        let last = lines.last();
        let tail = last.push('\n') + rest;
        assert(joined(lines) + rest =~= joined(init) + tail);
        lemma_lines_of_joined(init, tail);
        lemma_lines_after_line(last, rest);
        assert(init + (seq![last] + text_lines(rest)) =~= lines + text_lines(rest));
    }
}

/// The lines of a terminated text stay as they are when more text follows.
pub proof fn lemma_lines_after_terminated(a: Seq<char>, x: Seq<char>)
    requires
        terminated(a),
    ensures
        text_lines(a + x) == text_lines(a) + text_lines(x),
    decreases a.len(),
{
    if a.len() == 0 {
        assert(a + x =~= x);
        assert(text_lines(a) + text_lines(x) =~= text_lines(x));
    } else {
        lemma_first_newline_is_first(a);
        let n = first_newline(a);
        lemma_first_newline_front(a, x);
        let s = a + x;
        let b = a.skip(n + 1);
        assert(s.take(n) =~= a.take(n));
        assert(s.skip(n + 1) =~= b + x);
        if b.len() > 0 {
            assert(b.last() == a.last());
        }
        lemma_lines_after_terminated(b, x);
        let head = seq![strip_return(a.take(n))];
        assert(head + (text_lines(b) + text_lines(x)) =~= (head + text_lines(b)) + text_lines(x));
    }
}

/// Writing two runs of lines one after the other writes all of them.
pub proof fn lemma_joined_concat(first: Seq<Seq<char>>, second: Seq<Seq<char>>)
    ensures
        joined(first + second) == joined(first) + joined(second),
    decreases second.len(),
{
    if second.len() == 0 {
        assert(first + second =~= first);
        assert(joined(first) + joined(second) =~= joined(first));
    } else {
        lemma_joined_concat(first, second.drop_last());
        assert((first + second).drop_last() =~= first + second.drop_last());
        assert((first + second).last() == second.last());
        assert(joined(first + second) =~= joined(first) + joined(second));
    }
}

} // verus!
