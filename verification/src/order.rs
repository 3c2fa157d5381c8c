use std::cmp::Ordering;
use vstd::prelude::*;

verus! {

/// What `natord::compare_ignore_case` returns for two texts: their natural,
/// case-insensitive order, in which a run of digits counts by its value.
pub uninterp spec fn natural_compare(a: Seq<char>, b: Seq<char>) -> Ordering;

/// `a` does not come after `b` in the natural order.
pub open spec fn natural_le(a: Seq<char>, b: Seq<char>) -> bool {
    natural_compare(a, b) != Ordering::Greater
}

/// Comparing `a` and `b` the other way round mirrors the answer.
pub open spec fn mirrors(a: Seq<char>, b: Seq<char>) -> bool {
    natural_compare(a, b) == Ordering::Less <==> natural_compare(b, a) == Ordering::Greater
}

/// Comparing the entries at `i` and `j` the other way round mirrors the
/// answer.
pub open spec fn mirrors_at(items: Seq<Seq<char>>, i: int, j: int) -> bool {
    mirrors(items[i], items[j])
}

/// The natural order is transitive on the entries at `i`, `j` and `k`.
pub open spec fn chains_at(items: Seq<Seq<char>>, i: int, j: int, k: int) -> bool {
    natural_le(items[i], items[j]) && natural_le(items[j], items[k]) ==> natural_le(
        items[i],
        items[k],
    )
}

/// The natural order is a total preorder on `items`: comparing the other way
/// round mirrors the answer, and the order is transitive.
pub open spec fn natural_total_on(items: Seq<Seq<char>>) -> bool {
    &&& forall|i: int, j: int|
        0 <= i < items.len() && 0 <= j < items.len() ==> #[trigger] mirrors_at(items, i, j)
    &&& forall|i: int, j: int, k: int|
        0 <= i < items.len() && 0 <= j < items.len() && 0 <= k < items.len()
            ==> #[trigger] chains_at(items, i, j, k)
}

/// No entry of `items` comes after a later one in the natural order.
pub open spec fn natural_ordered(items: Seq<Seq<char>>) -> bool {
    forall|i: int, j: int|
        0 <= i < j < items.len() ==> natural_le(#[trigger] items[i], #[trigger] items[j])
}

/// Entries of `before` that the natural order holds equal stand in `after` as
/// they stood in `before`.
pub open spec fn keeps_equals_in_place(before: Seq<Seq<char>>, after: Seq<Seq<char>>) -> bool {
    forall|i: int, j: int, p: int, q: int|
        0 <= i < j < before.len() && 0 <= p < after.len() && 0 <= q < after.len()
            && #[trigger] after[p] == #[trigger] before[i] && #[trigger] after[q]
            == #[trigger] before[j] && natural_compare(before[i], before[j]) == Ordering::Equal ==> p
            < q
}

/// Calls `natord::compare_ignore_case`. Trusted: the result is named
/// `natural_compare` of the two texts.
#[verifier::external_body]
fn compare_ignore_case(a: &str, b: &str) -> (o: Ordering)
    ensures
        o == natural_compare(a@, b@),
{
    natord::compare_ignore_case(a, b)
}

/// Compares two lines in the natural, case-insensitive order.
pub fn natural_order(a: &String, b: &String) -> (o: Ordering)
    ensures
        o == natural_compare(a@, b@),
{
    compare_ignore_case(a.as_str(), b.as_str())
}

/// The natural order of two texts as a sign: negative where `a` comes first,
/// zero where the order holds them equal, positive where `b` comes first.
pub open spec fn natural_sign_of(a: Seq<char>, b: Seq<char>) -> i8 {
    match natural_compare(a, b) {
        Ordering::Less => -1i8,
        Ordering::Equal => 0i8,
        Ordering::Greater => 1i8,
    }
}

/// Compares two lines in the natural order and gives the answer as a sign.
pub fn natural_sign(a: &String, b: &String) -> (sign: i8)
    ensures
        sign == natural_sign_of(a@, b@),
{
    match natural_order(a, b) {
        Ordering::Less => -1i8,
        Ordering::Equal => 0i8,
        Ordering::Greater => 1i8,
    }
}

} // verus!
