use crate::config::Cli;
use crate::lineset::{is_new, sorted_lines, sorted_well, LineSet};
use crate::text::{
    content_of, join_lines, joined, push_line, split_lines, text_lines, text_of, trim, trimmed,
    views,
};
use vstd::prelude::*;

verus! {

/// The line as it is looked at: trimmed where trimming is on.
pub open spec fn normal(trim: bool, raw: Seq<char>) -> Seq<char> {
    if trim {
        trimmed(raw)
    } else {
        raw
    }
}

/// The known lines after `raw` was offered: it is added at the end where it
/// is new, and dropped otherwise.
pub open spec fn offer(known: Seq<Seq<char>>, trim: bool, raw: Seq<char>) -> Seq<Seq<char>> {
    if is_new(known, normal(trim, raw)) {
        known.push(normal(trim, raw))
    } else {
        known
    }
}

/// The known lines after each of `raws` was offered in turn.
pub open spec fn absorb(known: Seq<Seq<char>>, trim: bool, raws: Seq<Seq<char>>) -> Seq<
    Seq<char>,
>
    decreases raws.len(),
{
    if raws.len() == 0 {
        known
    } else {
        offer(absorb(known, trim, raws.drop_last()), trim, raws.last())
    }
}

/// The lines that were accepted from `raws`, in the order of their arrival.
pub open spec fn accepted(known: Seq<Seq<char>>, trim: bool, raws: Seq<Seq<char>>) -> Seq<
    Seq<char>,
> {
    absorb(known, trim, raws).skip(known.len() as int)
}

/// The known lines that a destination holds; one that does not exist holds
/// none.
pub open spec fn loaded(trim: bool, file: Option<Seq<char>>) -> Seq<Seq<char>> {
    match file {
        Some(content) => absorb(Seq::empty(), trim, text_lines(content)),
        None => Seq::empty(),
    }
}

/// What a run echoes: each accepted line and a newline, or nothing when quiet.
pub open spec fn run_output(cli: Cli, file: Option<Seq<char>>, input: Seq<char>) -> Seq<char> {
    if cli.quiet_mode {
        Seq::empty()
    } else {
        joined(accepted(loaded(cli.trim, file), cli.trim, text_lines(input)))
    }
}

/// The destination before the input is read: its deduplicated lines where a
/// rewrite is asked for, else what it was.
pub open spec fn run_base(cli: Cli, file: Option<Seq<char>>) -> Option<Seq<char>> {
    if cli.rewrite {
        Some(joined(loaded(cli.trim, file)))
    } else {
        file
    }
}

/// The destination after a run. A dry run leaves it alone. Otherwise the
/// accepted lines are appended to the base, which creates the destination
/// where a line is written; and a sorting run ends by replacing it with all
/// known lines, in sorted order where they can be sorted.
pub open spec fn run_file(cli: Cli, file: Option<Seq<char>>, input: Seq<char>) -> Option<
    Seq<char>,
> {
    let known = loaded(cli.trim, file);
    let fresh = accepted(known, cli.trim, text_lines(input));
    if cli.dry_run {
        file
    } else if cli.sort {
        Some(joined(sorted_lines(absorb(known, cli.trim, text_lines(input)))))
    } else if fresh.len() == 0 {
        run_base(cli, file)
    } else {
        Some(
            match run_base(cli, file) {
                Some(content) => content,
                None => Seq::empty(),
            } + joined(fresh),
        )
    }
}

/// The known lines stay in front, in their order, whatever is offered.
pub proof fn lemma_absorb_extends(known: Seq<Seq<char>>, trim: bool, raws: Seq<Seq<char>>)
    ensures
        known.len() <= absorb(known, trim, raws).len(),
        absorb(known, trim, raws).take(known.len() as int) == known,
    decreases raws.len(),
{
    if raws.len() == 0 {
        assert(known.take(known.len() as int) =~= known);
    } else {
        lemma_absorb_extends(known, trim, raws.drop_last());
        let before = absorb(known, trim, raws.drop_last());
        let after = absorb(known, trim, raws);
        assert(after.take(known.len() as int) =~= before.take(known.len() as int));
    }
}

/// Whether `line` is new to `lines`: not blank, and not known yet.
pub fn is_newline(lines: &LineSet, line: &str) -> (fresh: bool)
    ensures
        fresh == is_new(lines@, line@),
{
    if trim(line).is_empty() {
        return false;
    }
    if lines.contains(line) {
        return false;
    }
    true
}

/// Offers one line of input. A new line joins the known lines and is handed
/// back, as it is to be echoed and appended; any other changes nothing.
pub fn accept(lines: &mut LineSet, trim_on: bool, raw: &str) -> (taken: Option<String>)
    requires
        old(lines).wf(),
    ensures
        final(lines).wf(),
        final(lines)@ == offer(old(lines)@, trim_on, raw@),
        taken is Some <==> is_new(old(lines)@, normal(trim_on, raw@)),
        taken is Some ==> taken->0@ == normal(trim_on, raw@),
{
    let line = if trim_on {
        trim(raw)
    } else {
        raw
    };
    if !is_newline(lines, line) {
        return None;
    }
    lines.insert(line.to_owned());
    Some(line.to_owned())
}

/// Offers each of `raws` in turn, and hands back the accepted lines in the
/// order of their arrival.
pub fn accept_all(lines: &mut LineSet, trim_on: bool, raws: &Vec<String>) -> (taken: Vec<String>)
    requires
        old(lines).wf(),
    ensures
        final(lines).wf(),
        final(lines)@ == absorb(old(lines)@, trim_on, views(raws@)),
        views(taken@) == accepted(old(lines)@, trim_on, views(raws@)),
{
    let ghost start = lines@;
    let ghost all = views(raws@);
    let mut taken: Vec<String> = Vec::new();
    let mut i: usize = 0;
    assert(views(taken@) =~= start.skip(start.len() as int));
    while i < raws.len()
        invariant
            i <= raws.len(),
            all == views(raws@),
            lines.wf(),
            lines@ == absorb(start, trim_on, all.take(i as int)),
            views(taken@) == lines@.skip(start.len() as int),
        decreases raws.len() - i,
    {
        let ghost before = lines@;
        let ghost got = views(taken@);
        proof {
            lemma_absorb_extends(start, trim_on, all.take(i as int));
            assert(all.take(i + 1).drop_last() =~= all.take(i as int));
            assert(all.take(i + 1).last() == raws[i as int]@);
        }
        match accept(lines, trim_on, raws[i].as_str()) {
            Some(line) => {
                taken.push(line);
                assert(views(taken@) =~= got.push(line@));
                assert(before.push(line@).skip(start.len() as int) =~= before.skip(
                    start.len() as int,
                ).push(line@));
            },
            None => {},
        }
        i += 1;
    }
    proof {
        assert(all.take(i as int) =~= all);
    }
    taken
}

/// Reads the known lines out of a destination's content; `None` stands for a
/// destination that does not exist, and holds no line.
pub fn load_file(args: &Cli, content: Option<&str>) -> (lines: LineSet)
    ensures
        lines.wf(),
        lines@ == loaded(args.trim, text_of(content)),
{
    let mut lines = LineSet::new();
    match content {
        Some(data) => {
            let raws = split_lines(data);
            let _ = accept_all(&mut lines, args.trim, &raws);
        },
        None => {},
    }
    lines
}

/// What a run leaves behind.
pub struct Outcome {
    /// What was echoed.
    pub output: String,
    /// The content of the destination; `None` where it does not exist.
    pub file: Option<String>,
}

/// One whole run on a destination with content `file` (`None`: it does not
/// exist) and the text `input`: loads the known lines, rewrites the
/// destination where asked, offers each line of the input, echoes and appends
/// the accepted ones, and sorts at the end where asked.
pub fn app(args: &Cli, file: Option<&str>, input: &str) -> (done: Outcome)
    ensures
        done.output@ == run_output(*args, text_of(file), input@),
        content_of(done.file) == run_file(*args, text_of(file), input@),
        args.dry_run ==> content_of(done.file) == text_of(file),
        args.sort && !args.dry_run ==> sorted_well(
            absorb(loaded(args.trim, text_of(file)), args.trim, text_lines(input@)),
        ),
{
    let mut known = load_file(args, file);
    let mut current: Option<String> = match file {
        Some(content) => Some(content.to_owned()),
        None => None,
    };
    if !args.dry_run && args.rewrite {
        let kept = known.lines();
        current = Some(join_lines(&kept));
    }
    let raws = split_lines(input);
    let ghost start = known@;
    let ghost all = views(raws@);
    let ghost base = run_base(*args, text_of(file));
    let mut output = String::new();
    let mut i: usize = 0;
    assert(start.skip(start.len() as int) =~= Seq::<Seq<char>>::empty());
    while i < raws.len()
        invariant
            i <= raws.len(),
            all == views(raws@),
            base == run_base(*args, text_of(file)),
            known.wf(),
            known@ == absorb(start, args.trim, all.take(i as int)),
            start.len() <= known@.len(),
            output@ == if args.quiet_mode {
                Seq::<char>::empty()
            } else {
                joined(known@.skip(start.len() as int))
            },
            content_of(current) == if args.dry_run {
                text_of(file)
            } else if known@.len() == start.len() {
                base
            } else {
                Some(
                    match base {
                        Some(content) => content,
                        None => Seq::empty(),
                    } + joined(known@.skip(start.len() as int)),
                )
            },
        decreases raws.len() - i,
    {
        let ghost before = known@;
        proof {
            assert(all.take(i + 1).drop_last() =~= all.take(i as int));
            assert(all.take(i + 1).last() == raws[i as int]@);
        }
        match accept(&mut known, args.trim, raws[i].as_str()) {
            Some(line) => {
                proof {
                    let fresh = before.skip(start.len() as int);
                    assert(before.push(line@).skip(start.len() as int) =~= fresh.push(line@));
                    assert(fresh.push(line@).drop_last() =~= fresh);
                    assert(joined(fresh.push(line@)) == joined(fresh) + line@.push('\n'));
                    if before.len() == start.len() {
                        assert(fresh =~= Seq::<Seq<char>>::empty());
                        assert(joined(fresh) =~= Seq::<char>::empty());
                    }
                }
                if !args.quiet_mode {
                    push_line(&mut output, line.as_str());
                }
                if !args.dry_run {
                    let mut content = match current {
                        Some(content) => content,
                        None => String::new(),
                    };
                    let ghost was = content@;
                    push_line(&mut content, line.as_str());
                    proof {
                        let fresh = before.skip(start.len() as int);
                        assert(was + line@.push('\n') =~= match base {
                            Some(content) => content,
                            None => Seq::empty(),
                        } + (joined(fresh) + line@.push('\n')));
                    }
                    current = Some(content);
                }
            },
            None => {},
        }
        i += 1;
    }
    proof {
        assert(all.take(i as int) =~= all);
    }
    if args.sort && !args.dry_run {
        let _ = known.try_sort();
        let kept = known.lines();
        current = Some(join_lines(&kept));
    }
    Outcome { output, file: current }
}

} // verus!
