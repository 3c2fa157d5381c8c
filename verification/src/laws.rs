use crate::config::Cli;
use crate::lineset::{distinct_lines, is_new, sorted_lines};
use crate::roundtrip::{
    lemma_joined_concat, lemma_lines_after_terminated, lemma_lines_of_joined, plain_lines,
    terminated,
};
use crate::text::{joined, text_lines, trimmed};
use crate::writer::{
    absorb, accepted, lemma_absorb_extends, loaded, normal, offer, run_file, run_output,
};
use vstd::prelude::*;

verus! {

/// A line that is blank once it was looked at is never accepted, whatever the
/// settings and whatever is known.
pub proof fn lemma_blank_is_dropped(known: Seq<Seq<char>>, trim: bool, raw: Seq<char>)
    ensures
        trimmed(normal(trim, raw)).len() == 0 ==> offer(known, trim, raw) == known,
        trimmed(normal(trim, raw)).len() == 0 ==> accepted(known, trim, seq![raw]) == Seq::<
            Seq<char>,
        >::empty(),
{
    let one = seq![raw];
    if trimmed(normal(trim, raw)).len() == 0 {
        assert(one.drop_last() =~= Seq::<Seq<char>>::empty());
        assert(absorb(known, trim, one.drop_last()) == known);
        assert(one.last() == raw);
        assert(absorb(known, trim, one) == known);
        assert(known.skip(known.len() as int) =~= Seq::<Seq<char>>::empty());
    }
}

/// With trimming on, a line is treated as its trimmed form is without
/// trimming, so two lines with one trimmed form are treated alike.
pub proof fn lemma_trim_equivalence(known: Seq<Seq<char>>, raw: Seq<char>, other: Seq<char>)
    ensures
        offer(known, true, raw) == offer(known, false, trimmed(raw)),
        trimmed(raw) == trimmed(other) ==> offer(known, true, raw) == offer(known, true, other),
{
}

/// Without trimming, lines are told apart by their exact text: of two
/// different new lines both are kept, in their order, and a line offered
/// twice is kept once.
pub proof fn lemma_exact_equality(known: Seq<Seq<char>>, first: Seq<char>, second: Seq<char>)
    ensures
        is_new(known, first) && is_new(known, second) && first != second ==> absorb(
            known,
            false,
            seq![first, second],
        ) == known.push(first).push(second),
        is_new(known, first) ==> absorb(known, false, seq![first, first]) == known.push(first),
{
    let both = seq![first, second];
    let twice = seq![first, first];
    let one = seq![first];
    assert(both.drop_last() =~= one);
    assert(twice.drop_last() =~= one);
    assert(one.drop_last() =~= Seq::<Seq<char>>::empty());
    assert(absorb(known, false, one.drop_last()) == known);
    assert(absorb(known, false, one) == offer(known, false, first));
    if is_new(known, first) {
        assert(known.push(first)[known.len() as int] == first);
        assert(known.push(first).contains(first));
        if is_new(known, second) && first != second {
            assert(!known.push(first).contains(second));
        }
    }
}

/// Distinct, non-blank known lines stay distinct and non-blank whatever is
/// offered.
pub proof fn lemma_absorb_distinct(known: Seq<Seq<char>>, trim: bool, raws: Seq<Seq<char>>)
    requires
        distinct_lines(known),
    ensures
        distinct_lines(absorb(known, trim, raws)),
    decreases raws.len(),
{
    if raws.len() > 0 {
        lemma_absorb_distinct(known, trim, raws.drop_last());
        let before = absorb(known, trim, raws.drop_last());
        let after = absorb(known, trim, raws);
        assert forall|i: int, j: int| 0 <= i < j < after.len() implies after[i] != after[j] by {
            if j == before.len() {
                assert(before.contains(before[i]));
            }
        }
    }
}

/// Offering one input after another is offering both in one go: the phases of
/// a run compose.
pub proof fn lemma_absorb_concat(
    known: Seq<Seq<char>>,
    trim: bool,
    first: Seq<Seq<char>>,
    second: Seq<Seq<char>>,
)
    ensures
        absorb(known, trim, first + second) == absorb(absorb(known, trim, first), trim, second),
    decreases second.len(),
{
    if second.len() == 0 {
        assert(first + second =~= first);
    } else {
        lemma_absorb_concat(known, trim, first, second.drop_last());
        assert((first + second).drop_last() =~= first + second.drop_last());
        assert((first + second).last() == second.last());
    }
}

/// Lines keep the order in which they were first seen: what is known stays in
/// front, and the lines accepted from an earlier part of the input stand
/// before those accepted from a later part.
pub proof fn lemma_first_seen_order(
    known: Seq<Seq<char>>,
    trim: bool,
    first: Seq<Seq<char>>,
    second: Seq<Seq<char>>,
)
    ensures
        absorb(known, trim, first + second) == known + accepted(known, trim, first + second),
        accepted(known, trim, first + second) == accepted(known, trim, first) + accepted(
            absorb(known, trim, first),
            trim,
            second,
        ),
{
    let middle = absorb(known, trim, first);
    let end = absorb(known, trim, first + second);
    lemma_absorb_concat(known, trim, first, second);
    lemma_absorb_extends(known, trim, first);
    lemma_absorb_extends(known, trim, first + second);
    lemma_absorb_extends(middle, trim, second);
    assert(end =~= end.take(known.len() as int) + end.skip(known.len() as int));
    assert(middle =~= end.take(middle.len() as int).take(known.len() as int) + middle.skip(
        known.len() as int,
    ));
    assert(end.skip(known.len() as int) =~= middle.skip(known.len() as int) + end.skip(
        middle.len() as int,
    ));
}

/// Input whose lines are all known is dropped whole: where `seen` holds every
/// line that is known after `raws` was offered to `known`, offering `raws` to
/// `seen` changes nothing.
pub proof fn lemma_known_input_is_dropped(
    seen: Seq<Seq<char>>,
    known: Seq<Seq<char>>,
    trim: bool,
    raws: Seq<Seq<char>>,
)
    requires
        forall|line: Seq<char>| absorb(known, trim, raws).contains(line) ==> seen.contains(line),
    ensures
        absorb(seen, trim, raws) == seen,
        accepted(seen, trim, raws) == Seq::<Seq<char>>::empty(),
    decreases raws.len(),
{
    if raws.len() > 0 {
        let before = absorb(known, trim, raws.drop_last());
        let after = absorb(known, trim, raws);
        let line = normal(trim, raws.last());
        assert forall|other: Seq<char>| before.contains(other) implies seen.contains(other) by {
            let i = choose|i: int| 0 <= i < before.len() && before[i] == other;
            assert(after[i] == other);
        }
        lemma_known_input_is_dropped(seen, known, trim, raws.drop_last());
        if is_new(seen, line) {
            if is_new(before, line) {
                assert(after[before.len() as int] == line);
                assert(after.contains(line));
            } else {
                assert(after.contains(line));
            }
        }
    }
    assert(seen.skip(seen.len() as int) =~= Seq::<Seq<char>>::empty());
}

/// Offering the same input a second time accepts nothing.
pub proof fn lemma_second_pass_accepts_nothing(
    known: Seq<Seq<char>>,
    trim: bool,
    raws: Seq<Seq<char>>,
)
    ensures
        absorb(absorb(known, trim, raws), trim, raws) == absorb(known, trim, raws),
        accepted(absorb(known, trim, raws), trim, raws) == Seq::<Seq<char>>::empty(),
{
    lemma_known_input_is_dropped(absorb(known, trim, raws), known, trim, raws);
}

/// A dry run leaves the destination as it was, whatever the input and the
/// other settings.
pub proof fn lemma_dry_run_keeps_file(cli: Cli, file: Option<Seq<char>>, input: Seq<char>)
    requires
        cli.dry_run,
    ensures
        run_file(cli, file, input) == file,
{
}

/// What is echoed depends on the input, the destination, and on whether the
/// run is quiet and trims; not on whether and how it writes.
pub proof fn lemma_echo_ignores_writes(
    cli: Cli,
    other: Cli,
    file: Option<Seq<char>>,
    input: Seq<char>,
)
    requires
        cli.quiet_mode == other.quiet_mode,
        cli.trim == other.trim,
    ensures
        run_output(cli, file, input) == run_output(other, file, input),
        !cli.quiet_mode ==> run_output(cli, file, input) == joined(
            accepted(loaded(cli.trim, file), cli.trim, text_lines(input)),
        ),
{
}

/// A second run on the same input is silent and writes no line of it. Here
/// `again` is the destination after a first run on `file`, and reading it
/// back gives at least the lines that were known at the end of that run. The
/// second run then echoes nothing, and leaves the destination as it found it
/// unless it rewrites or sorts, in which case it writes back what it loaded.
pub proof fn lemma_second_run_is_silent(
    cli: Cli,
    file: Option<Seq<char>>,
    again: Option<Seq<char>>,
    input: Seq<char>,
)
    requires
        !cli.dry_run,
        again == run_file(cli, file, input),
        forall|line: Seq<char>|
            absorb(loaded(cli.trim, file), cli.trim, text_lines(input)).contains(line) ==> loaded(
                cli.trim,
                again,
            ).contains(line),
    ensures
        run_output(cli, again, input) == Seq::<char>::empty(),
        !cli.sort && !cli.rewrite ==> run_file(cli, again, input) == again,
        !cli.sort && cli.rewrite ==> run_file(cli, again, input) == Some(
            joined(loaded(cli.trim, again)),
        ),
        cli.sort ==> run_file(cli, again, input) == Some(
            joined(sorted_lines(loaded(cli.trim, again))),
        ),
{
    lemma_known_input_is_dropped(
        loaded(cli.trim, again),
        loaded(cli.trim, file),
        cli.trim,
        text_lines(input),
    );
    assert(joined(Seq::<Seq<char>>::empty()) =~= Seq::<char>::empty());
}

/// Lines that are distinct from each other and from the known ones, none
/// blank and none changed by trimming where trimming is on, are all accepted,
/// in their order.
pub proof fn lemma_absorb_new_lines(known: Seq<Seq<char>>, trim: bool, fresh: Seq<Seq<char>>)
    requires
        distinct_lines(known + fresh),
        forall|i: int| 0 <= i < fresh.len() ==> normal(trim, #[trigger] fresh[i]) == fresh[i],
    ensures
        absorb(known, trim, fresh) == known + fresh,
    decreases fresh.len(),
{
    let all = known + fresh;
    if fresh.len() == 0 {
        assert(all =~= known);
    } else {
        let init = fresh.drop_last();
        let last = fresh.last();
        let front = known + init;
        assert forall|i: int| 0 <= i < front.len() implies trimmed(#[trigger] front[i]).len()
            > 0 by {
            assert(front[i] == all[i]);
        }
        assert forall|i: int, j: int| 0 <= i < j < front.len() implies front[i] != front[j] by {
            assert(front[i] == all[i] && front[j] == all[j]);
        }
        assert forall|i: int| 0 <= i < init.len() implies normal(trim, #[trigger] init[i])
            == init[i] by {
            assert(init[i] == fresh[i]);
        }
        lemma_absorb_new_lines(known, trim, init);
        assert(all[front.len() as int] == last);
        assert(normal(trim, last) == last);
        if front.contains(last) {
            let i = choose|i: int| 0 <= i < front.len() && front[i] == last;
            assert(all[i] == last);
        }
        assert(front.push(last) =~= all);
    }
}

/// A second run on the same input changes nothing and echoes nothing. This
/// holds of a run that writes and does not sort, where every known line reads
/// back as it was written: the lines that the first run wrote are plain and
/// unchanged by trimming where trimming is on, and, unless the run rewrites
/// it, the destination was absent or ended with a newline.
pub proof fn lemma_second_run_changes_nothing(
    cli: Cli,
    file: Option<Seq<char>>,
    input: Seq<char>,
)
    requires
        !cli.dry_run,
        !cli.sort,
        forall|i: int|
            0 <= i < absorb(loaded(cli.trim, file), cli.trim, text_lines(input)).len() ==> normal(
                cli.trim,
                #[trigger] absorb(loaded(cli.trim, file), cli.trim, text_lines(input))[i],
            ) == absorb(loaded(cli.trim, file), cli.trim, text_lines(input))[i],
        cli.rewrite ==> plain_lines(absorb(loaded(cli.trim, file), cli.trim, text_lines(input))),
        !cli.rewrite ==> plain_lines(
            accepted(loaded(cli.trim, file), cli.trim, text_lines(input)),
        ),
        !cli.rewrite ==> (file is None || terminated(file->0)),
    ensures
        run_output(cli, run_file(cli, file, input), input) == Seq::<char>::empty(),
        run_file(cli, run_file(cli, file, input), input) == run_file(cli, file, input),
{
    let nothing = Seq::<Seq<char>>::empty();
    let known = loaded(cli.trim, file);
    let raws = text_lines(input);
    let all = absorb(known, cli.trim, raws);
    let fresh = accepted(known, cli.trim, raws);
    let again = run_file(cli, file, input);
    lemma_absorb_extends(known, cli.trim, raws);
    assert(all =~= known + fresh);
    assert(distinct_lines(nothing));
    assert(distinct_lines(known)) by {
        if file is Some {
            lemma_absorb_distinct(nothing, cli.trim, text_lines(file->0));
        }
    }
    lemma_absorb_distinct(known, cli.trim, raws);
    assert(text_lines(Seq::<char>::empty()) =~= nothing);
    assert(absorb(nothing, cli.trim, nothing) == nothing);
    assert forall|i: int| 0 <= i < fresh.len() implies normal(cli.trim, #[trigger] fresh[i])
        == fresh[i] by {
        assert(fresh[i] == all[known.len() + i]);
    }
    if cli.rewrite {
        lemma_joined_concat(known, fresh);
        assert(joined(nothing) =~= Seq::<char>::empty());
        assert(again == Some(joined(all))) by {
            if fresh.len() == 0 {
                assert(all =~= known);
            }
        }
        lemma_lines_of_joined(all, Seq::<char>::empty());
        assert(joined(all) + Seq::<char>::empty() =~= joined(all));
        assert(all + nothing =~= all);
        assert(nothing + all =~= all);
        lemma_absorb_new_lines(nothing, cli.trim, all);
        assert(loaded(cli.trim, again) == all);
    } else if fresh.len() == 0 {
        assert(all =~= known);
        assert(loaded(cli.trim, again) == all);
    } else {
        let content = match file {
            Some(content) => content,
            None => Seq::<char>::empty(),
        };
        lemma_lines_after_terminated(content, joined(fresh));
        lemma_lines_of_joined(fresh, Seq::<char>::empty());
        assert(joined(fresh) + Seq::<char>::empty() =~= joined(fresh));
        assert(fresh + nothing =~= fresh);
        lemma_absorb_concat(nothing, cli.trim, text_lines(content), fresh);
        assert(absorb(nothing, cli.trim, text_lines(content)) == known);
        lemma_absorb_new_lines(known, cli.trim, fresh);
        assert(loaded(cli.trim, again) == all);
    }
    lemma_second_run_is_silent(cli, file, again, input);
}

} // verus!
