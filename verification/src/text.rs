use vstd::prelude::*;
use vstd::string::*;

verus! {

/// What `str::trim` returns for a text: the text without its leading and
/// trailing white space.
pub uninterp spec fn trimmed(s: Seq<char>) -> Seq<char>;

/// The number of characters in front of the first newline of `s`; its length
/// where it has none.
pub open spec fn first_newline(s: Seq<char>) -> int
    decreases s.len(),
{
    if s.len() == 0 || s[0] == '\n' {
        0
    } else {
        1 + first_newline(s.drop_first())
    }
}

/// A line without the carriage return that may stand before its newline.
pub open spec fn strip_return(line: Seq<char>) -> Seq<char> {
    if line.len() > 0 && line.last() == '\r' {
        line.drop_last()
    } else {
        line
    }
}

/// The lines of a text. A line ends with a newline, or with a carriage return
/// and a newline; the ending is no part of the line, and the last line needs
/// none.
pub open spec fn text_lines(s: Seq<char>) -> Seq<Seq<char>>
    decreases s.len(),
    via text_lines_decreases
{
    let n = first_newline(s);
    if s.len() == 0 {
        Seq::empty()
    } else if n >= s.len() {
        seq![s]
    } else {
        seq![strip_return(s.take(n))] + text_lines(s.skip(n + 1))
    }
}

#[via_fn]
proof fn text_lines_decreases(s: Seq<char>) {
    lemma_first_newline_bounds(s);
}

/// The first newline lies within the text.
pub proof fn lemma_first_newline_bounds(s: Seq<char>)
    ensures
        0 <= first_newline(s) <= s.len(),
    decreases s.len(),
{
    if s.len() > 0 && s[0] != '\n' {
        lemma_first_newline_bounds(s.drop_first());
    }
}

/// The texts that a sequence of strings holds.
pub open spec fn views(v: Seq<String>) -> Seq<Seq<char>> {
    Seq::new(v.len(), |i: int| v[i]@)
}

/// The text of an optional string slice.
pub open spec fn text_of(t: Option<&str>) -> Option<Seq<char>> {
    match t {
        Some(s) => Some(s@),
        None => None,
    }
}

/// The text of an optional string.
pub open spec fn content_of(t: Option<String>) -> Option<Seq<char>> {
    match t {
        Some(s) => Some(s@),
        None => None,
    }
}

/// The text that holds each of `lines` followed by a newline.
pub open spec fn joined(lines: Seq<Seq<char>>) -> Seq<char>
    decreases lines.len(),
{
    if lines.len() == 0 {
        Seq::empty()
    } else {
        joined(lines.drop_last()) + lines.last().push('\n')
    }
}

/// Calls `str::trim`. Trusted: the result is named `trimmed` of the argument.
#[verifier::external_body]
pub(crate) fn trim<'a>(s: &'a str) -> (r: &'a str)
    ensures
        r@ == trimmed(s@),
{
    s.trim()
}

/// Calls `str::lines` and collects the lines as owned strings. Trusted: they
/// are the `text_lines` of the argument, in order.
#[verifier::external_body]
pub(crate) fn split_lines(s: &str) -> (v: Vec<String>)
    ensures
        views(v@) == text_lines(s@),
{
    s.lines().map(|l| l.to_string()).collect()
}

/// Appends `line` and a newline to `out`.
pub fn push_line(out: &mut String, line: &str)
    ensures
        final(out)@ == old(out)@ + line@.push('\n'),
{
    out.append(line);
    proof {
        reveal_strlit("\n");
    }
    out.append("\n");
    assert("\n"@ =~= seq!['\n']);
    assert(out@ =~= old(out)@ + line@.push('\n'));
}

/// Writes `lines` as one text, each followed by a newline.
pub fn join_lines(lines: &Vec<String>) -> (out: String)
    ensures
        out@ == joined(views(lines@)),
{
    let mut out = String::new();
    let mut i: usize = 0;
    while i < lines.len()
        invariant
            i <= lines.len(),
            out@ == joined(views(lines@).take(i as int)),
        decreases lines.len() - i,
    {
        push_line(&mut out, lines[i].as_str());
        proof {
            let all = views(lines@);
            assert(all.take(i + 1).drop_last() =~= all.take(i as int));
            assert(all.take(i + 1).last() == lines[i as int]@);
        }
        i += 1;
    }
    proof {
        assert(views(lines@).take(i as int) =~= views(lines@));
    }
    out
}

} // verus!
