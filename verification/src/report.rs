//! What a report shows of finished statistics: rankings and peaks.

use crate::stats::Stats;
use crate::tally::{
    ledger_keys, ledger_of, ledger_peek, lists_keys, lists_pairs, lists_table, tally_entries, tally_of,
};
use ahash::AHashMap;
use vstd::prelude::*;

verus! {

/// Whether `e` stands somewhere in `order`.
pub open spec fn holds_index(order: Seq<usize>, e: int) -> bool {
    exists|i: int| 0 <= i < order.len() && #[trigger] order[i] == e
}

/// `order` holds every index below `n` exactly once.
pub open spec fn is_permutation(order: Seq<usize>, n: int) -> bool {
    &&& order.len() == n
    &&& forall|i: int| 0 <= i < n ==> (#[trigger] order[i]) < n
    &&& forall|i: int, j: int| 0 <= i < j < n ==> #[trigger] order[i] != #[trigger] order[j]
    &&& forall|e: int| 0 <= e < n ==> #[trigger] holds_index(order, e)
}

/// The counts, taken in the given order, never go up.
pub open spec fn descends(counts: Seq<usize>, order: Seq<usize>) -> bool {
    forall|i: int, j: int|
        0 <= i < j < order.len() ==> counts[#[trigger] order[i] as int] >= counts[
            #[trigger] order[j] as int]
}

/// `inv` sends every index below `n` to the place where `order` holds it.
spec fn inverts(order: Seq<usize>, inv: Seq<int>, n: int) -> bool {
    &&& order.len() == n
    &&& inv.len() == n
    &&& forall|i: int| 0 <= i < n ==> (#[trigger] order[i]) < n
    &&& forall|i: int| 0 <= i < n ==> inv[#[trigger] order[i] as int] == i
    &&& forall|e: int| 0 <= e < n ==> 0 <= #[trigger] inv[e] < n && order[inv[e]] == e
}

proof fn lemma_inverts_is_permutation(order: Seq<usize>, inv: Seq<int>, n: int)
    requires
        inverts(order, inv, n),
    ensures
        is_permutation(order, n),
{
    assert forall|e: int| 0 <= e < n implies #[trigger] holds_index(order, e) by {
        assert(order[inv[e]] == e);
    }
}

/// An order of the indices of `counts` in which the counts never go up.
pub fn descending_order(counts: &Vec<usize>) -> (order: Vec<usize>)
    ensures
        is_permutation(order@, counts@.len() as int),
        descends(counts@, order@),
{
    let n = counts.len();
    let mut order: Vec<usize> = Vec::new();
    let mut k: usize = 0;
    while k < n
        invariant
            k <= n,
            order@.len() == k,
            forall|i: int| 0 <= i < k ==> order@[i] == i,
        decreases n - k,
    {
        order.push(k);
        k += 1;
    }
    let ghost mut inv: Seq<int> = Seq::new(n as nat, |e: int| e);
    let mut i: usize = 0;
    while i < n
        invariant
            i <= n == counts@.len(),
            inverts(order@, inv, n as int),
            forall|a: int, b: int|
                0 <= a < b < n && a < i ==> counts@[#[trigger] order@[a] as int] >= counts@[
                    #[trigger] order@[b] as int],
        decreases n - i,
    {
        let mut best: usize = i;
        let mut j: usize = i + 1;
        while j < n
            invariant
                i <= best < j <= n == counts@.len(),
                inverts(order@, inv, n as int),
                forall|b: int|
                    i <= b < j ==> counts@[order@[best as int] as int] >= counts@[
                        #[trigger] order@[b] as int],
            decreases n - j,
        {
            if counts[order[j]] > counts[order[best]] {
                best = j;
            }
            j += 1;
        }
        let first = order[i];
        let top = order[best];
        order.set(i, top);
        order.set(best, first);
        proof {
            inv = inv.update(top as int, i as int).update(first as int, best as int);
        }
        i += 1;
    }
    proof {
        lemma_inverts_is_permutation(order@, inv, n as int);
    }
    order
}

/// Whether the counts of the entries never go up from one to the next.
pub open spec fn counts_descend(r: Seq<(String, usize)>) -> bool {
    forall|i: int, j: int| 0 <= i < j < r.len() ==> (#[trigger] r[i]).1 >= (#[trigger] r[j]).1
}

/// `r` holds the entries of `entries` in the order that `order` gives.
pub open spec fn rearranged(entries: Seq<(String, usize)>, order: Seq<usize>, r: Seq<(String, usize)>)
    -> bool {
    &&& is_permutation(order, entries.len() as int)
    &&& r.len() == entries.len()
    &&& forall|a: int|
        0 <= a < r.len() ==> (#[trigger] r[a]).0@ == entries[order[a] as int].0@ && r[a].1
            == entries[order[a] as int].1
}

/// Putting a listing of a table into another order leaves it a listing of
/// that table.
pub proof fn lemma_rearranged_lists_pairs(
    entries: Seq<(String, usize)>,
    order: Seq<usize>,
    r: Seq<(String, usize)>,
    t: Map<Seq<char>, usize>,
)
    requires
        rearranged(entries, order, r),
        lists_pairs(entries, t),
    ensures
        lists_pairs(r, t),
{
    let n = entries.len() as int;
    assert forall|a: int| 0 <= a < r.len() implies t.contains_pair((#[trigger] r[a]).0@, r[a].1) by {
        let e = entries[order[a] as int];
        assert(t.contains_pair(e.0@, e.1));
    }
    assert forall|a: int, b: int| 0 <= a < b < r.len() implies (#[trigger] r[a]).0@ != (
    #[trigger] r[b]).0@ by {
        let x = order[a] as int;
        let y = order[b] as int;
        assert(x != y);
        if x < y {
            assert(entries[x].0@ != entries[y].0@);
        } else {
            assert(entries[y].0@ != entries[x].0@);
        }
    }
    assert forall|k: Seq<char>| #[trigger] t.contains_key(k) implies exists|a: int|
        0 <= a < r.len() && (#[trigger] r[a]).0@ == k by {
        let e = choose|e: int| 0 <= e < entries.len() && (#[trigger] entries[e]).0@ == k;
        assert(holds_index(order, e));
        let a = choose|a: int| 0 <= a < n && #[trigger] order[a] == e;
        assert(r[a].0@ == k);
    }
}

/// The given entries with the largest count first: the same entries in
/// another order, the counts never going up.
pub fn rank_entries(entries: &Vec<(String, usize)>) -> (r: Vec<(String, usize)>)
    ensures
        exists|order: Seq<usize>| #[trigger] rearranged(entries@, order, r@),
        counts_descend(r@),
        forall|t: Map<Seq<char>, usize>| lists_pairs(entries@, t) ==> lists_pairs(r@, t),
{
    let n = entries.len();
    let mut counts: Vec<usize> = Vec::new();
    let mut k: usize = 0;
    while k < n
        invariant
            k <= n == entries@.len(),
            counts@.len() == k,
            forall|i: int| 0 <= i < k ==> counts@[i] == (#[trigger] entries@[i]).1,
        decreases n - k,
    {
        counts.push(entries[k].1);
        k += 1;
    }
    let order = descending_order(&counts);
    let mut r: Vec<(String, usize)> = Vec::new();
    let mut i: usize = 0;
    while i < n
        invariant
            i <= n == entries@.len(),
            r@.len() == i,
            is_permutation(order@, n as int),
            forall|a: int|
                0 <= a < i ==> (#[trigger] r@[a]).0@ == entries@[order@[a] as int].0@ && r@[a].1
                    == entries@[order@[a] as int].1,
        decreases n - i,
    {
        let at = order[i];
        let name = entries[at].0.clone();
        r.push((name, entries[at].1));
        i += 1;
    }
    proof {
        assert forall|a: int, b: int| 0 <= a < b < r@.len() implies (#[trigger] r@[a]).1 >= (
        #[trigger] r@[b]).1 by {
            assert(counts@[order@[a] as int] >= counts@[order@[b] as int]);
        }
        assert(rearranged(entries@, order@, r@));
        assert forall|t: Map<Seq<char>, usize>| lists_pairs(entries@, t) implies lists_pairs(
            r@,
            t,
        ) by {
            lemma_rearranged_lists_pairs(entries@, order@, r@, t);
        }
    }
    r
}

/// The authors with their message counts, the busiest first: every author
/// once, the counts never going up.
pub fn rank_authors(stats: &Stats) -> (r: Vec<(String, usize)>)
    ensures
        lists_table(r@, stats@.per_author),
        counts_descend(r@),
{
    let entries = tally_entries(&stats.per_author);
    rank_entries(&entries)
}

/// Whether the key `k` stands in the listing `r`.
pub open spec fn listed(r: Seq<(String, usize)>, k: Seq<char>) -> bool {
    exists|j: int| 0 <= j < r.len() && (#[trigger] r[j]).0@ == k
}

/// `r` holds the `limit` entries of the table `t` with the largest counts,
/// or all of them when there are fewer: the counts never go up, each entry
/// is a pair of `t`, no key stands twice, no key left out has a larger
/// count than one that is listed, and keys are left out only when `r` is full.
pub open spec fn lists_top(r: Seq<(String, usize)>, t: Map<Seq<char>, usize>, limit: int) -> bool {
    &&& r.len() <= limit
    &&& counts_descend(r)
    &&& forall|i: int| 0 <= i < r.len() ==> t.contains_pair((#[trigger] r[i]).0@, r[i].1)
    &&& forall|i: int, j: int|
        0 <= i < j < r.len() ==> (#[trigger] r[i]).0@ != (#[trigger] r[j]).0@
    &&& forall|k: Seq<char>, i: int|
        #![trigger t.contains_key(k), r[i]]
        t.contains_key(k) && 0 <= i < r.len() ==> t[k] <= r[i].1 || listed(r, k)
    &&& r.len() < limit ==> forall|k: Seq<char>| #[trigger] t.contains_key(k) ==> listed(r, k)
}

/// The first `limit` entries of a listing, or all of it when it is shorter.
/// Of a ranked listing of a table these are the table's top entries.
pub fn leading(all: Vec<(String, usize)>, limit: usize) -> (r: Vec<(String, usize)>)
    ensures
        r@ == all@.subrange(
            0,
            if all@.len() <= limit {
                all@.len() as int
            } else {
                limit as int
            },
        ),
        counts_descend(all@) ==> forall|t: Map<Seq<char>, usize>|
            lists_pairs(all@, t) ==> lists_top(r@, t, limit as int),
{
    let mut r = all;
    if r.len() > limit {
        r.truncate(limit);
    }
    proof {
        assert(r@ =~= all@.subrange(0, r@.len() as int));
        assert forall|t: Map<Seq<char>, usize>| counts_descend(all@) && lists_pairs(
            all@,
            t,
        ) implies lists_top(r@, t, limit as int) by {
            assert forall|k: Seq<char>| #[trigger] t.contains_key(k) implies (r@.len() < limit
                ==> listed(r@, k)) && forall|i: int|
                0 <= i < r@.len() ==> t[k] <= (#[trigger] r@[i]).1 || listed(r@, k) by {
                let e = choose|e: int| 0 <= e < all@.len() && (#[trigger] all@[e]).0@ == k;
                assert(t.contains_pair(all@[e].0@, all@[e].1));
                if e < r@.len() {
                    assert(r@[e].0@ == k);
                } else {
                    assert forall|i: int| 0 <= i < r@.len() implies t[k] <= (#[trigger] r@[i]).1 by {
                        assert(all@[i].1 >= all@[e].1);
                        assert(r@[i] == all@[i]);
                    }
                }
            }
        }
    }
    r
}

/// The `limit` most frequent words with their counts, the most frequent first.
pub fn top_words(stats: &Stats, limit: usize) -> (r: Vec<(String, usize)>)
    ensures
        lists_top(r@, stats@.word_freq, limit as int),
        stats@.word_freq.dom().finite(),
        r@.len() == if stats@.word_freq.dom().len() <= limit {
            stats@.word_freq.dom().len()
        } else {
            limit as nat
        },
{
    let entries = tally_entries(&stats.word_freq);
    let all = rank_entries(&entries);
    leading(all, limit)
}

/// What one count adds to a spam score: the repeats beyond the first.
pub open spec fn extra(c: usize) -> nat {
    if c > 1 {
        (c - 1) as nat
    } else {
        0
    }
}

/// The spam score of one author's table: the sum, over all distinct texts,
/// of the repeats beyond the first.
pub open spec fn repeats(t: Map<Seq<char>, usize>) -> nat
    decreases t.dom().len(),
    when t.dom().finite()
{
    if t.dom().len() == 0 {
        0
    } else {
        let k = t.dom().choose();
        extra(t[k]) + repeats(t.remove(k))
    }
}

/// A number as a counter holds it: capped at the largest value.
pub open spec fn capped(n: nat) -> usize {
    if n <= usize::MAX {
        n as usize
    } else {
        usize::MAX
    }
}

/// The sum of the extra repeats of a listing.
pub open spec fn listed_repeats(r: Seq<(String, usize)>) -> nat
    decreases r.len(),
{
    if r.len() == 0 {
        0
    } else {
        listed_repeats(r.drop_last()) + extra(r.last().1)
    }
}

proof fn lemma_listed_repeats_remove(r: Seq<(String, usize)>, i: int)
    requires
        0 <= i < r.len(),
    ensures
        listed_repeats(r) == listed_repeats(r.remove(i)) + extra(r[i].1),
    decreases r.len(),
{
    if i == r.len() - 1 {
        assert(r.remove(i) =~= r.drop_last());
    } else {
        lemma_listed_repeats_remove(r.drop_last(), i);
        assert(r.remove(i).drop_last() =~= r.drop_last().remove(i));
        assert(r.remove(i).last() == r.last());
    }
}

/// Any listing of a table sums to the table's spam score.
proof fn lemma_listing_sums_to_repeats(r: Seq<(String, usize)>, t: Map<Seq<char>, usize>)
    requires
        lists_table(r, t),
    ensures
        listed_repeats(r) == repeats(t),
    decreases r.len(),
{
    if t.dom().len() != 0 {
        let k = t.dom().choose();
        assert(t.contains_key(k));
        let i = choose|i: int| 0 <= i < r.len() && (#[trigger] r[i]).0@ == k;
        assert(t.contains_pair(r[i].0@, r[i].1));
        let rest = r.remove(i);
        let less = t.remove(k);
        assert(less.dom() =~= t.dom().remove(k));
        assert forall|a: int| 0 <= a < rest.len() implies less.contains_pair(
            (#[trigger] rest[a]).0@,
            rest[a].1,
        ) by {
            if a < i {
                assert(rest[a] == r[a]);
                assert(r[a].0@ != r[i].0@);
            } else {
                assert(rest[a] == r[a + 1]);
                assert(r[i].0@ != r[a + 1].0@);
            }
            assert(t.contains_pair(rest[a].0@, rest[a].1));
        }
        assert forall|a: int, b: int| 0 <= a < b < rest.len() implies (#[trigger] rest[a]).0@ != (
        #[trigger] rest[b]).0@ by {
            let x = if a < i { a } else { a + 1 };
            let y = if b < i { b } else { b + 1 };
            assert(rest[a] == r[x]);
            assert(rest[b] == r[y]);
            assert(r[x].0@ != r[y].0@);
        }
        assert forall|q: Seq<char>| #[trigger] less.contains_key(q) implies exists|a: int|
            0 <= a < rest.len() && (#[trigger] rest[a]).0@ == q by {
            assert(t.contains_key(q));
            let e = choose|e: int| 0 <= e < r.len() && (#[trigger] r[e]).0@ == q;
            assert(e != i);
            let a = if e < i { e } else { e - 1 };
            assert(rest[a] == r[e]);
        }
        lemma_listing_sums_to_repeats(rest, less);
        lemma_listed_repeats_remove(r, i);
    }
}

/// The spam score of one author's table, capped at the largest counter value.
pub fn spam_score(table: &AHashMap<String, usize>) -> (r: usize)
    ensures
        r == capped(repeats(tally_of(*table))),
{
    let entries = tally_entries(table);
    let mut acc: usize = 0;
    let mut i: usize = 0;
    proof {
        assert(entries@.subrange(0, 0) =~= Seq::<(String, usize)>::empty());
    }
    while i < entries.len()
        invariant
            i <= entries@.len(),
            acc == capped(listed_repeats(entries@.subrange(0, i as int))),
        decreases entries@.len() - i,
    {
        proof {
            let done = entries@.subrange(0, i + 1);
            assert(done.drop_last() =~= entries@.subrange(0, i as int));
            assert(done.last() == entries@[i as int]);
        }
        let c = entries[i].1;
        if c > 1 {
            let more = c - 1;
            if acc <= usize::MAX - more {
                acc = acc + more;
            } else {
                acc = usize::MAX;
            }
        }
        i += 1;
    }
    proof {
        assert(entries@.subrange(0, entries@.len() as int) =~= entries@);
        lemma_listing_sums_to_repeats(entries@, tally_of(*table));
    }
    acc
}

/// The authors who repeated themselves, each with the spam score of their
/// table of texts.
pub open spec fn spammers(ledger: Map<Seq<char>, Map<Seq<char>, usize>>) -> Map<Seq<char>, usize> {
    Map::new(
        |a: Seq<char>| ledger.contains_key(a) && repeats(ledger[a]) > 0,
        |a: Seq<char>| capped(repeats(ledger[a])),
    )
}

/// The `limit` authors with the highest spam scores, the highest first;
/// authors who never repeated a text are not listed.
pub fn top_spammers(stats: &Stats, limit: usize) -> (r: Vec<(String, usize)>)
    ensures
        lists_top(r@, spammers(stats@.spam_map), limit as int),
{
    let authors = ledger_keys(&stats.spam_map);
    let ghost ledger = stats@.spam_map;
    let ghost t = spammers(ledger);
    let mut found: Vec<(String, usize)> = Vec::new();
    let ghost mut origin: Seq<int> = Seq::empty();
    let mut i: usize = 0;
    while i < authors.len()
        invariant
            i <= authors@.len(),
            ledger == ledger_of(stats.spam_map),
            t == spammers(ledger),
            lists_keys(authors@, ledger.dom()),
            origin.len() == found@.len(),
            forall|a: int|
                0 <= a < found@.len() ==> 0 <= #[trigger] origin[a] < i && found@[a].0@
                    == authors@[origin[a]]@ && t.contains_pair(found@[a].0@, found@[a].1),
            forall|a: int, b: int|
                0 <= a < b < found@.len() ==> #[trigger] origin[a] < #[trigger] origin[b],
            forall|e: int|
                0 <= e < i && t.contains_key((#[trigger] authors@[e])@) ==> listed(
                    found@,
                    authors@[e]@,
                ),
        decreases authors@.len() - i,
    {
        let ghost before = found@;
        match ledger_peek(&stats.spam_map, authors[i].as_str()) {
            Some(table) => {
                let score = spam_score(table);
                if score > 0 {
                    found.push((authors[i].clone(), score));
                    proof {
                        origin = origin.push(i as int);
                        assert(found@[found@.len() - 1].0@ == authors@[i as int]@);
                    }
                }
            },
            None => {},
        }
        proof {
            assert forall|e: int|
                0 <= e < i + 1 && t.contains_key((#[trigger] authors@[e])@) implies listed(
                found@,
                authors@[e]@,
            ) by {
                if e < i {
                    let j = choose|j: int|
                        0 <= j < before.len() && (#[trigger] before[j]).0@ == authors@[e]@;
                    assert(found@[j] == before[j]);
                } else {
                    assert(found@[found@.len() - 1].0@ == authors@[e]@);
                }
            }
        }
        i += 1;
    }
    proof {
        assert forall|a: int, b: int| 0 <= a < b < found@.len() implies (#[trigger] found@[a]).0@
            != (#[trigger] found@[b]).0@ by {
            assert(origin[a] < origin[b]);
            assert(authors@[origin[a]]@ != authors@[origin[b]]@);
        }
        assert forall|k: Seq<char>| #[trigger] t.contains_key(k) implies exists|a: int|
            0 <= a < found@.len() && (#[trigger] found@[a]).0@ == k by {
            assert(ledger.dom().contains(k));
            let e = choose|e: int| 0 <= e < authors@.len() && (#[trigger] authors@[e])@ == k;
            assert(listed(found@, authors@[e]@));
        }
        assert forall|a: int| 0 <= a < found@.len() implies t.contains_pair(
            (#[trigger] found@[a]).0@,
            found@[a].1,
        ) by {
            assert(0 <= origin[a]);
        }
        assert(lists_pairs(found@, t));
    }
    let all = rank_entries(&found);
    leading(all, limit)
}

/// `at` is the first place from `from` on where `hist` is largest, and
/// `count` is what it holds there.
pub open spec fn first_peak(hist: Seq<usize>, from: int, at: int, count: usize) -> bool {
    &&& from <= at < hist.len()
    &&& hist[at] == count
    &&& forall|k: int| from <= k < hist.len() ==> (#[trigger] hist[k]) <= count
    &&& forall|k: int| from <= k < at ==> (#[trigger] hist[k]) < count
}

fn peak(hist: &[usize], from: usize) -> (r: (usize, usize))
    requires
        from < hist@.len(),
    ensures
        first_peak(hist@, from as int, r.0 as int, r.1),
{
    let mut at: usize = from;
    let mut count: usize = hist[from];
    let mut k: usize = from + 1;
    while k < hist.len()
        invariant
            from <= at < k <= hist@.len(),
            hist@[at as int] == count,
            forall|j: int| from <= j < k ==> (#[trigger] hist@[j]) <= count,
            forall|j: int| from <= j < at ==> (#[trigger] hist@[j]) < count,
        decreases hist@.len() - k,
    {
        if hist[k] > count {
            count = hist[k];
            at = k;
        }
        k += 1;
    }
    (at, count)
}

/// The busiest hour of day and its message count; the earliest one when
/// several hours tie.
pub fn busiest_hour(stats: &Stats) -> (r: (usize, usize))
    ensures
        first_peak(stats@.hour_hist, 0, r.0 as int, r.1),
{
    peak(stats.hour_hist.as_slice(), 0)
}

/// The busiest day of month, from 1 to 31, and its message count; the
/// earliest one when several days tie.
pub fn busiest_day(stats: &Stats) -> (r: (usize, usize))
    ensures
        first_peak(stats@.day_hist, 1, r.0 as int, r.1),
{
    peak(stats.day_hist.as_slice(), 1)
}

} // verus!
