use crate::order::{keeps_equals_in_place, natural_order, natural_ordered, natural_total_on};
use crate::rank::natural_order_is_total;
use crate::text::{trimmed, views};
use indexmap::IndexSet;
use std::hash::RandomState;
use vstd::prelude::*;

verus! {

/// `indexmap::IndexSet`, held as an opaque value: what it contains is only
/// known through `set_items`.
#[verifier::external_type_specification]
#[verifier::external_body]
#[verifier::reject_recursive_types(T)]
#[verifier::reject_recursive_types(S)]
pub struct ExIndexSet<T, S>(indexmap::IndexSet<T, S>);

/// The entries of an `IndexSet` of strings, in the order in which it walks
/// them.
pub uninterp spec fn set_items(set: IndexSet<String, RandomState>) -> Seq<Seq<char>>;

/// What `IndexSet::sort_by` leaves of entries `items` when it compares with
/// `natural_order`.
pub uninterp spec fn natural_sorted(items: Seq<Seq<char>>) -> Seq<Seq<char>>;

/// Calls `IndexSet::new`. Trusted: the new set has no entries.
#[verifier::external_body]
fn set_new() -> (set: IndexSet<String, RandomState>)
    ensures
        set_items(set) == Seq::<Seq<char>>::empty(),
{
    IndexSet::new()
}

/// Calls `IndexSet::len`. Trusted: it is the number of entries.
#[verifier::external_body]
fn set_len(set: &IndexSet<String, RandomState>) -> (n: usize)
    ensures
        n == set_items(*set).len(),
{
    set.len()
}

/// Calls `IndexSet::contains`. Trusted: it tells whether an entry has exactly
/// the text of `line`.
#[verifier::external_body]
fn set_contains(set: &IndexSet<String, RandomState>, line: &str) -> (found: bool)
    ensures
        found == set_items(*set).contains(line@),
{
    set.contains(line)
}

/// Calls `IndexSet::insert`. Trusted: a text that is no entry yet becomes the
/// last entry and the call returns true; otherwise the set stays as it is and
/// the call returns false.
#[verifier::external_body]
fn set_insert(set: &mut IndexSet<String, RandomState>, line: String) -> (added: bool)
    ensures
        added == !set_items(*old(set)).contains(line@),
        added ==> set_items(*final(set)) == set_items(*old(set)).push(line@),
        !added ==> set_items(*final(set)) == set_items(*old(set)),
{
    set.insert(line)
}

/// Calls `IndexSet::iter` and copies each entry. Trusted: the copies are the
/// entries, in the set's order.
#[verifier::external_body]
fn set_lines(set: &IndexSet<String, RandomState>) -> (lines: Vec<String>)
    ensures
        views(lines@) == set_items(*set),
{
    set.iter().cloned().collect()
}

/// Calls `IndexSet::sort_by` with `natural_order`, for entries on which that
/// order is a total preorder, as the underlying slice sort asks. Trusted: the
/// entries afterwards are named `natural_sorted` of the entries before; they
/// are the same entries, each as often as before; none comes after a later
/// one; and the sort is stable.
#[verifier::external_body]
fn set_sort(set: &mut IndexSet<String, RandomState>)
    requires
        natural_total_on(set_items(*old(set))),
    ensures
        set_items(*final(set)) == natural_sorted(set_items(*old(set))),
        set_items(*final(set)).to_multiset() == set_items(*old(set)).to_multiset(),
        natural_ordered(set_items(*final(set))),
        keeps_equals_in_place(set_items(*old(set)), set_items(*final(set))),
{
    set.sort_by(|a, b| natural_order(a, b))
}

/// The known lines: distinct, non-blank texts in the order in which they were
/// first seen.
pub struct LineSet {
    set: IndexSet<String, RandomState>,
}

impl View for LineSet {
    type V = Seq<Seq<char>>;

    closed spec fn view(&self) -> Seq<Seq<char>> {
        set_items(self.set)
    }
}

/// The lines in sorted order, where the natural order is a total preorder on
/// them; else as they are.
pub open spec fn sorted_lines(items: Seq<Seq<char>>) -> Seq<Seq<char>> {
    if natural_total_on(items) {
        natural_sorted(items)
    } else {
        items
    }
}

/// What sorting promises of `items`: the sorted lines are the same lines, and
/// where the natural order is a total preorder on them, none comes after a
/// later one and lines that the order holds equal keep their places among
/// themselves.
pub open spec fn sorted_well(items: Seq<Seq<char>>) -> bool {
    &&& sorted_lines(items).to_multiset() == items.to_multiset()
    &&& natural_total_on(items) ==> natural_ordered(sorted_lines(items))
        && keeps_equals_in_place(items, sorted_lines(items))
}

/// No two entries are equal, and none is blank.
pub open spec fn distinct_lines(items: Seq<Seq<char>>) -> bool {
    &&& items.no_duplicates()
    &&& forall|i: int| 0 <= i < items.len() ==> trimmed(#[trigger] items[i]).len() > 0
}

/// `line` is worth keeping: it is not blank and not among `known`.
pub open spec fn is_new(known: Seq<Seq<char>>, line: Seq<char>) -> bool {
    trimmed(line).len() > 0 && !known.contains(line)
}

impl LineSet {
    /// The invariant of the known lines.
    pub open spec fn wf(&self) -> bool {
        distinct_lines(self@)
    }

    /// A set without lines.
    pub fn new() -> (lines: LineSet)
        ensures
            lines.wf(),
            lines@ == Seq::<Seq<char>>::empty(),
    {
        LineSet { set: set_new() }
    }

    /// The number of known lines.
    pub fn len(&self) -> (n: usize)
        ensures
            n == self@.len(),
    {
        set_len(&self.set)
    }

    /// Whether `line` is known, by exact equality of the texts.
    pub fn contains(&self, line: &str) -> (found: bool)
        ensures
            found == self@.contains(line@),
    {
        set_contains(&self.set, line)
    }

    /// The known lines, in their current order.
    pub fn lines(&self) -> (lines: Vec<String>)
        ensures
            views(lines@) == self@,
    {
        set_lines(&self.set)
    }

    /// Adds a line that `is_new` to the end.
    pub(crate) fn insert(&mut self, line: String)
        requires
            old(self).wf(),
            is_new(old(self)@, line@),
        ensures
            final(self).wf(),
            final(self)@ == old(self)@.push(line@),
    {
        let ghost before = self@;
        let _ = set_insert(&mut self.set, line);
        proof {
            let after = self@;
            assert forall|i: int, j: int| 0 <= i < j < after.len() implies after[i] != after[j] by {
                if j == before.len() {
                    assert(before.contains(before[i]));
                }
            }
        }
    }

    /// Reorders the lines in the natural, case-insensitive order, on which
    /// they must be totally preordered. The lines stay the same, none comes
    /// after a later one, and lines that the order holds equal keep their
    /// places among themselves.
    pub fn sort(&mut self)
        requires
            old(self).wf(),
            natural_total_on(old(self)@),
        ensures
            final(self).wf(),
            final(self)@ == natural_sorted(old(self)@),
            final(self)@.to_multiset() == old(self)@.to_multiset(),
            forall|line: Seq<char>| final(self)@.contains(line) <==> old(self)@.contains(line),
            final(self)@.len() == old(self)@.len(),
            natural_ordered(final(self)@),
            keeps_equals_in_place(old(self)@, final(self)@),
    {
        let ghost before = self@;
        set_sort(&mut self.set);
        proof {
            let after = self@;
            assert forall|line: Seq<char>| after.contains(line) <==> before.contains(line) by {
                vstd::seq_lib::to_multiset_contains(after, line);
                vstd::seq_lib::to_multiset_contains(before, line);
            }
            vstd::seq_lib::to_multiset_len(after);
            vstd::seq_lib::to_multiset_len(before);
            before.lemma_multiset_has_no_duplicates();
            after.lemma_multiset_has_no_duplicates_conv();
            assert forall|i: int| 0 <= i < after.len() implies trimmed(#[trigger] after[i]).len()
                > 0 by {
                assert(after.contains(after[i]));
                assert(before.contains(after[i]));
                let k = choose|k: int| 0 <= k < before.len() && before[k] == after[i];
                assert(trimmed(before[k]).len() > 0);
            }
        }
    }

    /// Sorts the lines where the natural order is a total preorder on them,
    /// and tells whether it did; otherwise the lines stay as they are.
    pub fn try_sort(&mut self) -> (sorted: bool)
        requires
            old(self).wf(),
        ensures
            final(self).wf(),
            sorted == natural_total_on(old(self)@),
            final(self)@ == sorted_lines(old(self)@),
            sorted_well(old(self)@),
            forall|line: Seq<char>| final(self)@.contains(line) <==> old(self)@.contains(line),
            final(self)@.len() == old(self)@.len(),
            sorted ==> natural_ordered(final(self)@) && keeps_equals_in_place(
                old(self)@,
                final(self)@,
            ),
    {
        let lines = self.lines();
        if natural_order_is_total(&lines) {
            self.sort();
            true
        } else {
            false
        }
    }
}

} // verus!
