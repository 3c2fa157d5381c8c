use crate::order::{chains_at, mirrors_at, natural_sign, natural_sign_of, natural_total_on};
use crate::text::views;
use vstd::prelude::*;

verus! {

/// The number of `items` that come strictly before `line` in the natural
/// order.
pub open spec fn count_before(items: Seq<Seq<char>>, line: Seq<char>) -> int
    decreases items.len(),
{
    if items.len() == 0 {
        0
    } else {
        count_before(items.drop_last(), line) + if natural_sign_of(items.last(), line) < 0 {
            1int
        } else {
            0int
        }
    }
}

/// The rank of the entry at `i`: how many entries come strictly before it.
pub open spec fn rank_at(items: Seq<Seq<char>>, i: int) -> int {
    count_before(items, items[i])
}

/// The natural order of the entries at `i` and `j` is the order of their
/// ranks.
pub open spec fn ranked_at(items: Seq<Seq<char>>, i: int, j: int) -> bool {
    &&& natural_sign_of(items[i], items[j]) < 0 <==> rank_at(items, i) < rank_at(items, j)
    &&& natural_sign_of(items[i], items[j]) == 0 <==> rank_at(items, i) == rank_at(items, j)
}

/// The natural order agrees on `items` with the order of their ranks, which
/// is another way to say that it is a total preorder on them.
pub open spec fn natural_ranked_on(items: Seq<Seq<char>>) -> bool {
    forall|i: int, j: int|
        0 <= i < items.len() && 0 <= j < items.len() ==> #[trigger] ranked_at(items, i, j)
}

/// An order that agrees with the order of the ranks is a total preorder.
pub proof fn lemma_ranked_is_total(items: Seq<Seq<char>>)
    requires
        natural_ranked_on(items),
    ensures
        natural_total_on(items),
{
    assert forall|i: int, j: int| 0 <= i < items.len() && 0 <= j < items.len() implies #[trigger] mirrors_at(
        items,
        i,
        j,
    ) by {
        assert(ranked_at(items, i, j));
        assert(ranked_at(items, j, i));
    }
    assert forall|i: int, j: int, k: int|
        0 <= i < items.len() && 0 <= j < items.len() && 0 <= k < items.len() implies #[trigger] chains_at(
        items,
        i,
        j,
        k,
    ) by {
        assert(ranked_at(items, i, j));
        assert(ranked_at(items, j, k));
        assert(ranked_at(items, i, k));
    }
}

/// On a total preorder, an entry that does not come after another has at most
/// the other's count among the first `n` entries, and less where it comes
/// strictly before the other and is itself among those entries.
proof fn lemma_count_monotone(items: Seq<Seq<char>>, i: int, j: int, n: int)
    requires
        natural_total_on(items),
        0 <= i < items.len(),
        0 <= j < items.len(),
        0 <= n <= items.len(),
        natural_sign_of(items[i], items[j]) <= 0,
    ensures
        count_before(items.take(n), items[i]) <= count_before(items.take(n), items[j]),
        natural_sign_of(items[i], items[j]) < 0 && i < n ==> count_before(items.take(n), items[i])
            < count_before(items.take(n), items[j]),
    decreases n,
{
    if n > 0 {
        lemma_count_monotone(items, i, j, n - 1);
        let k = n - 1;
        assert(items.take(n).drop_last() =~= items.take(k));
        assert(items.take(n).last() == items[k]);
        assert(mirrors_at(items, k, i));
        assert(mirrors_at(items, i, k));
        assert(mirrors_at(items, k, j));
        assert(mirrors_at(items, j, k));
        assert(mirrors_at(items, i, i));
        assert(chains_at(items, k, i, j));
        assert(chains_at(items, i, j, k));
    }
}

/// A total preorder agrees with the order of the ranks.
pub proof fn lemma_total_is_ranked(items: Seq<Seq<char>>)
    requires
        natural_total_on(items),
    ensures
        natural_ranked_on(items),
{
    let n = items.len() as int;
    assert(items.take(n) =~= items);
    assert forall|i: int, j: int| 0 <= i < items.len() && 0 <= j < items.len() implies #[trigger] ranked_at(
        items,
        i,
        j,
    ) by {
        assert(mirrors_at(items, i, j));
        assert(mirrors_at(items, j, i));
        if natural_sign_of(items[i], items[j]) <= 0 {
            lemma_count_monotone(items, i, j, n);
        }
        if natural_sign_of(items[j], items[i]) <= 0 {
            lemma_count_monotone(items, j, i, n);
        }
    }
}

/// Counts the lines that come strictly before the line at `i`.
fn rank_of(lines: &Vec<String>, i: usize) -> (rank: usize)
    requires
        i < lines.len(),
    ensures
        rank == rank_at(views(lines@), i as int),
{
    let ghost items = views(lines@);
    let mut rank: usize = 0;
    let mut k: usize = 0;
    while k < lines.len()
        invariant
            i < lines.len(),
            k <= lines.len(),
            items == views(lines@),
            rank <= k,
            rank == count_before(items.take(k as int), items[i as int]),
        decreases lines.len() - k,
    {
        proof {
            assert(items.take(k + 1).drop_last() =~= items.take(k as int));
            assert(items.take(k + 1).last() == lines[k as int]@);
        }
        if natural_sign(&lines[k], &lines[i]) < 0 {
            rank += 1;
        }
        k += 1;
    }
    proof {
        assert(items.take(k as int) =~= items);
    }
    rank
}

/// Tests whether the natural order is a total preorder on `lines`, by ranking
/// each line and comparing each pair with the order of their ranks.
#[verifier::loop_isolation(false)]
pub fn natural_order_is_total(lines: &Vec<String>) -> (ok: bool)
    ensures
        ok == natural_total_on(views(lines@)),
        ok == natural_ranked_on(views(lines@)),
{
    let n = lines.len();
    let ghost items = views(lines@);
    let mut ranks: Vec<usize> = Vec::new();
    let mut r: usize = 0;
    while r < n
        invariant
            r <= n,
            ranks.len() == r,
            forall|a: int| 0 <= a < r ==> #[trigger] ranks[a] == rank_at(items, a),
        decreases n - r,
    {
        let rank = rank_of(lines, r);
        ranks.push(rank);
        r += 1;
    }
    let mut i: usize = 0;
    while i < n
        invariant
            i <= n,
            ranks.len() == n,
            forall|a: int| 0 <= a < n ==> #[trigger] ranks[a] == rank_at(items, a),
            forall|a: int, b: int| 0 <= a < i && 0 <= b < n ==> #[trigger] ranked_at(items, a, b),
        decreases n - i,
    {
        let mut j: usize = 0;
        while j < n
            invariant
                i < n,
                j <= n,
                forall|b: int| 0 <= b < j ==> #[trigger] ranked_at(items, i as int, b),
            decreases n - j,
        {
            let sign = natural_sign(&lines[i], &lines[j]);
            if (sign < 0) != (ranks[i] < ranks[j]) || (sign == 0) != (ranks[i] == ranks[j]) {
                assert(!ranked_at(items, i as int, j as int));
                proof {
                    if natural_total_on(items) {
                        lemma_total_is_ranked(items);
                    }
                }
                return false;
            }
            j += 1;
        }
        i += 1;
    }
    proof {
        lemma_ranked_is_total(items);
    }
    true
}

} // verus!
