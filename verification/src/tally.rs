//! Frequency tables: hash maps from text to a count, and from an author to
//! such a table.

use ahash::AHashMap;
use vstd::prelude::*;

verus! {

/// `ahash::AHashMap`: carried as an opaque value; what it holds is read
/// through `tally_of` and `ledger_of`.
#[verifier::external_type_specification]
#[verifier::external_body]
#[verifier::reject_recursive_types(K)]
#[verifier::reject_recursive_types(V)]
#[verifier::reject_recursive_types(S)]
pub struct ExAHashMap<K, V, S>(ahash::AHashMap<K, V, S>);

/// `ahash::RandomState`, the hasher state in the type of every table;
/// nothing is said of it.
#[verifier::external_type_specification]
#[verifier::external_body]
pub struct ExRandomState(ahash::RandomState);

/// The key-count pairs that a table holds.
pub uninterp spec fn tally_of(m: AHashMap<String, usize>) -> Map<Seq<char>, usize>;

/// The tables that a per-author table holds, each by its contents.
pub uninterp spec fn ledger_of(m: AHashMap<String, AHashMap<String, usize>>) -> Map<
    Seq<char>,
    Map<Seq<char>, usize>,
>;

/// The table without any key.
pub open spec fn empty_table() -> Map<Seq<char>, usize> {
    Map::empty()
}

/// The per-author table without any author.
pub open spec fn empty_ledger() -> Map<Seq<char>, Map<Seq<char>, usize>> {
    Map::empty()
}

/// The count that `m` holds for `k`; a missing key counts as zero.
pub open spec fn count_in(m: Map<Seq<char>, usize>, k: Seq<char>) -> usize {
    if m.contains_key(k) {
        m[k]
    } else {
        0
    }
}

/// The table that `mm` holds for `a`; a missing author has an empty table.
pub open spec fn table_in(mm: Map<Seq<char>, Map<Seq<char>, usize>>, a: Seq<char>) -> Map<
    Seq<char>,
    usize,
> {
    if mm.contains_key(a) {
        mm[a]
    } else {
        empty_table()
    }
}

/// A counter one step on; it stays at the largest value once it is there.
pub open spec fn next_count(c: usize) -> usize {
    if c < usize::MAX {
        (c + 1) as usize
    } else {
        c
    }
}

/// `m` with the count of `k` one step on.
pub open spec fn bumped(m: Map<Seq<char>, usize>, k: Seq<char>) -> Map<Seq<char>, usize> {
    m.insert(k, next_count(count_in(m, k)))
}

/// `mm` with the count of `k` in the table of `a` one step on.
pub open spec fn bumped_in(mm: Map<Seq<char>, Map<Seq<char>, usize>>, a: Seq<char>, k: Seq<char>)
    -> Map<Seq<char>, Map<Seq<char>, usize>> {
    mm.insert(a, bumped(table_in(mm, a), k))
}

/// `r` lists the pairs of the table `t`: each entry is a pair of `t`, no
/// key stands twice, no key is left out.
pub open spec fn lists_pairs(r: Seq<(String, usize)>, t: Map<Seq<char>, usize>) -> bool {
    &&& forall|i: int| 0 <= i < r.len() ==> t.contains_pair((#[trigger] r[i]).0@, r[i].1)
    &&& forall|i: int, j: int|
        0 <= i < j < r.len() ==> (#[trigger] r[i]).0@ != (#[trigger] r[j]).0@
    &&& forall|k: Seq<char>| #[trigger]
        t.contains_key(k) ==> exists|i: int| 0 <= i < r.len() && (#[trigger] r[i]).0@ == k
}

/// `r` lists every pair of the finite table `t` once, and so has as many
/// entries as `t` has keys.
pub open spec fn lists_table(r: Seq<(String, usize)>, t: Map<Seq<char>, usize>) -> bool {
    &&& t.dom().finite()
    &&& r.len() == t.dom().len()
    &&& lists_pairs(r, t)
}

/// `r` lists every key of the finite set `keys` once.
pub open spec fn lists_keys(r: Seq<String>, keys: Set<Seq<char>>) -> bool {
    &&& keys.finite()
    &&& r.len() == keys.len()
    &&& forall|i: int| 0 <= i < r.len() ==> keys.contains((#[trigger] r[i])@)
    &&& forall|i: int, j: int| 0 <= i < j < r.len() ==> (#[trigger] r[i])@ != (#[trigger] r[j])@
    &&& forall|k: Seq<char>| #[trigger]
        keys.contains(k) ==> exists|i: int| 0 <= i < r.len() && (#[trigger] r[i])@ == k
}

/// A counter one step on, saturating at `usize::MAX`.
pub fn step(c: usize) -> (r: usize)
    ensures
        r == next_count(c),
{
    if c < usize::MAX {
        c + 1
    } else {
        c
    }
}

/// `AHashMap::new`: a table that holds nothing.
#[verifier::external_body]
pub(crate) fn tally_new() -> (m: AHashMap<String, usize>)
    ensures
        tally_of(m) == empty_table(),
{
    AHashMap::new()
}

/// `AHashMap::get`: the count stored under `k`, if the key is present.
#[verifier::external_body]
pub(crate) fn tally_get(m: &AHashMap<String, usize>, k: &str) -> (r: Option<usize>)
    ensures
        r == (if tally_of(*m).contains_key(k@) {
            Some(tally_of(*m)[k@])
        } else {
            None
        }),
{
    match m.get(k) {
        Some(v) => Some(*v),
        None => None,
    }
}

/// `AHashMap::insert`: stores `v` under `k`, replacing what was there.
#[verifier::external_body]
pub(crate) fn tally_set(m: &mut AHashMap<String, usize>, k: String, v: usize)
    ensures
        tally_of(*final(m)) == tally_of(*old(m)).insert(k@, v),
{
    m.insert(k, v);
}

/// `AHashMap::iter` (through the map it wraps): every key of the table
/// once, each with its count, in an order that is not fixed.
#[verifier::external_body]
pub(crate) fn tally_entries(m: &AHashMap<String, usize>) -> (r: Vec<(String, usize)>)
    ensures
        lists_table(r@, tally_of(*m)),
{
    let mut out = Vec::new();
    for (k, v) in m.iter() {
        out.push((k.clone(), *v));
    }
    out
}

/// `AHashMap::new`: a per-author table that holds nothing.
#[verifier::external_body]
pub(crate) fn ledger_new() -> (m: AHashMap<String, AHashMap<String, usize>>)
    ensures
        ledger_of(m) == empty_ledger(),
{
    AHashMap::new()
}

/// `AHashMap::remove`: takes the table of `a` out, if the author is present.
#[verifier::external_body]
pub(crate) fn ledger_take(m: &mut AHashMap<String, AHashMap<String, usize>>, a: &str) -> (r:
    Option<AHashMap<String, usize>>)
    ensures
        r is Some == ledger_of(*old(m)).contains_key(a@),
        r is Some ==> tally_of(r.unwrap()) == ledger_of(*old(m))[a@],
        ledger_of(*final(m)) == ledger_of(*old(m)).remove(a@),
{
    m.remove(a)
}

/// `AHashMap::insert`: stores the table `t` under `a`, replacing what was there.
#[verifier::external_body]
pub(crate) fn ledger_put(
    m: &mut AHashMap<String, AHashMap<String, usize>>,
    a: String,
    t: AHashMap<String, usize>,
)
    ensures
        ledger_of(*final(m)) == ledger_of(*old(m)).insert(a@, tally_of(t)),
{
    m.insert(a, t);
}

/// `AHashMap::get`: the table stored under `a`, if the author is present.
#[verifier::external_body]
pub(crate) fn ledger_peek<'a>(m: &'a AHashMap<String, AHashMap<String, usize>>, a: &str) -> (r:
    Option<&'a AHashMap<String, usize>>)
    ensures
        r is Some == ledger_of(*m).contains_key(a@),
        r is Some ==> tally_of(*r.unwrap()) == ledger_of(*m)[a@],
{
    m.get(a)
}

/// `AHashMap::keys` (through the map it wraps): every author of the table
/// once, in an order that is not fixed.
#[verifier::external_body]
pub(crate) fn ledger_keys(m: &AHashMap<String, AHashMap<String, usize>>) -> (r: Vec<String>)
    ensures
        lists_keys(r@, ledger_of(*m).dom()),
{
    let mut out = Vec::new();
    for k in m.keys() {
        out.push(k.clone());
    }
    out
}

/// Adds one to the count of `k` in `m`.
pub fn tally_bump(m: &mut AHashMap<String, usize>, k: &str)
    ensures
        tally_of(*final(m)) == bumped(tally_of(*old(m)), k@),
{
    let c = match tally_get(m, k) {
        Some(c) => c,
        None => 0,
    };
    tally_set(m, k.to_owned(), step(c));
}

/// Adds one to the count of `k` in the table that `m` holds for `a`,
/// starting a table for an author who has none.
pub fn ledger_bump(m: &mut AHashMap<String, AHashMap<String, usize>>, a: &str, k: &str)
    ensures
        ledger_of(*final(m)) == bumped_in(ledger_of(*old(m)), a@, k@),
{
    let mut table = match ledger_take(m, a) {
        Some(t) => t,
        None => tally_new(),
    };
    tally_bump(&mut table, k);
    ledger_put(m, a.to_owned(), table);
    proof {
        let before = ledger_of(*old(m));
        assert(before.remove(a@).insert(a@, bumped(table_in(before, a@), k@)) =~= bumped_in(
            before,
            a@,
            k@,
        ));
    }
}

} // verus!
