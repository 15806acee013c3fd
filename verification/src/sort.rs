//! Stable sorting of entries, by deadline or by case-folded text.
//!
//! The result is pinned down exactly by [`sort_by`], a spec-level stable
//! insertion sort: each element is inserted after every earlier element
//! whose key is less than or equal to its own, so ties keep their original
//! relative order. Descending modes are the ascending result reversed,
//! which also reverses ties, exactly as the editing engine does it.

use vstd::prelude::*;

use crate::chars::{lex_le, lex_le_chars, lower_of, str_to_chars, to_lowercase};
use crate::date::Deadline;
use crate::doc::entries_view;
use crate::md::{clone_entry, Entry, EntryV};

verus! {

/// Which key a sort compares by.
#[derive(Clone, Copy, Debug, PartialEq, Eq, Structural)]
pub enum SortKey {
    /// The optional deadline, an absent deadline being the least key.
    ByDeadline,
    /// The case-folded body text.
    ByText,
}

/// A deadline collapsed to one number that orders chronologically.
pub open spec fn deadline_num(d: Deadline) -> int {
    (((d.year * 100 + d.month) * 100 + d.day) * 100 + d.hour) * 100 + d.minute
}

/// Order on optional deadlines: an absent deadline is the least key, and
/// present deadlines order chronologically.
pub open spec fn deadline_le(a: Option<Deadline>, b: Option<Deadline>) -> bool {
    match (a, b) {
        (None, _) => true,
        (Some(_), None) => false,
        (Some(x), Some(y)) => deadline_num(x) <= deadline_num(y),
    }
}

/// The key order a [`SortKey`] stands for.
pub open spec fn entry_le(k: SortKey, a: EntryV, b: EntryV) -> bool {
    match k {
        SortKey::ByDeadline => deadline_le(a.deadline, b.deadline),
        SortKey::ByText => lex_le(lower_of(a.text), lower_of(b.text)),
    }
}

/// Executable comparison matching [`deadline_le`].
fn deadline_le_exec(a: &Option<Deadline>, b: &Option<Deadline>) -> (r: bool)
    ensures
        r == deadline_le(*a, *b),
{
    match (a, b) {
        (None, _) => true,
        (Some(_), None) => false,
        (Some(x), Some(y)) => {
            let nx: u64 = (((x.year as u64 * 100 + x.month as u64) * 100 + x.day as u64) * 100
                + x.hour as u64) * 100 + x.minute as u64;
            let ny: u64 = (((y.year as u64 * 100 + y.month as u64) * 100 + y.day as u64) * 100
                + y.hour as u64) * 100 + y.minute as u64;
            nx <= ny
        },
    }
}

/// Executable comparison matching [`entry_le`].
fn entry_le_exec(k: SortKey, a: &Entry, b: &Entry) -> (r: bool)
    ensures
        r == entry_le(k, a@, b@),
{
    match k {
        SortKey::ByDeadline => deadline_le_exec(&a.deadline, &b.deadline),
        SortKey::ByText => {
            let la = to_lowercase(a.text.as_str());
            let lb = to_lowercase(b.text.as_str());
            let va = str_to_chars(la.as_str());
            let vb = str_to_chars(lb.as_str());
            lex_le_chars(&va, &vb)
        },
    }
}

/// Inserts an element into a sequence after every leading element whose key
/// is less than or equal to its own: the stable insertion position.
pub open spec fn insort(k: SortKey, e: EntryV, s: Seq<EntryV>) -> Seq<EntryV>
    decreases s.len(),
{
    if s.len() == 0 {
        seq![e]
    } else if entry_le(k, s[0], e) {
        seq![s[0]] + insort(k, e, s.drop_first())
    } else {
        seq![e] + s
    }
}

/// Stable insertion sort: inserts each element, in order, into the sorted
/// image of the elements before it.
pub open spec fn sort_by(k: SortKey, s: Seq<EntryV>) -> Seq<EntryV>
    decreases s.len(),
{
    if s.len() == 0 {
        Seq::empty()
    } else {
        insort(k, s.last(), sort_by(k, s.drop_last()))
    }
}

/// Inserting adds exactly one element.
pub proof fn lemma_insort_len(k: SortKey, e: EntryV, s: Seq<EntryV>)
    ensures
        insort(k, e, s).len() == s.len() + 1,
    decreases s.len(),
{
    if s.len() > 0 && entry_le(k, s[0], e) {
        lemma_insort_len(k, e, s.drop_first());
    }
}

/// Sorting keeps the number of elements.
pub proof fn lemma_sort_by_len(k: SortKey, s: Seq<EntryV>)
    ensures
        sort_by(k, s).len() == s.len(),
    decreases s.len(),
{
    if s.len() > 0 {
        lemma_sort_by_len(k, s.drop_last());
        lemma_insort_len(k, s.last(), sort_by(k, s.drop_last()));
    }
}

/// [`insort`] places the element exactly at the first position whose key is
/// strictly greater.
proof fn lemma_insort_at(k: SortKey, e: EntryV, s: Seq<EntryV>, p: int)
    requires
        0 <= p <= s.len(),
        forall|j: int| 0 <= j < p ==> entry_le(k, #[trigger] s[j], e),
        p < s.len() ==> !entry_le(k, s[p], e),
    ensures
        insort(k, e, s) == s.take(p) + seq![e] + s.skip(p),
    decreases p,
{
    if p == 0 {
        if s.len() == 0 {
            assert(insort(k, e, s) =~= s.take(0) + seq![e] + s.skip(0));
        } else {
            assert(insort(k, e, s) =~= s.take(0) + seq![e] + s.skip(0));
        }
    } else {
        assert(entry_le(k, s[0], e));
        lemma_insort_at(k, e, s.drop_first(), p - 1);
        assert(s.drop_first().take(p - 1) =~= s.take(p).drop_first());
        assert(s.drop_first().skip(p - 1) =~= s.skip(p));
        assert(seq![s[0]] + (s.drop_first().take(p - 1) + seq![e] + s.drop_first().skip(p - 1))
            =~= s.take(p) + seq![e] + s.skip(p));
    }
}

/// Stable-sort tie behavior: two entries whose keys are equal under the
/// sort's order, given in original order `(a, b)`, come out of the
/// ascending sort still as `(a, b)`; the descending result, being the
/// reversal of the ascending one, yields `(b, a)` rather than what an
/// independent stable descending sort would give.
pub proof fn lemma_stable_tie_pair(k: SortKey, a: EntryV, b: EntryV)
    requires
        entry_le(k, a, b),
        entry_le(k, b, a),
    ensures
        sort_by(k, seq![a, b]) == seq![a, b],
        sort_by(k, seq![a, b]).reverse() == seq![b, a],
{
    let s = seq![a, b];
    assert(s.drop_last() =~= seq![a]);
    assert(seq![a].drop_last() =~= Seq::<EntryV>::empty());
    assert(sort_by(k, Seq::<EntryV>::empty()) == Seq::<EntryV>::empty());
    assert(seq![a].last() == a);
    assert(sort_by(k, seq![a]) == insort(k, a, Seq::<EntryV>::empty()));
    assert(insort(k, a, Seq::<EntryV>::empty()) =~= seq![a]);
    assert(s.last() == b);
    assert(sort_by(k, s) == insort(k, b, seq![a]));
    assert(seq![a][0] == a);
    assert(seq![a].drop_first() =~= Seq::<EntryV>::empty());
    assert(insort(k, b, Seq::<EntryV>::empty()) == seq![b]);
    assert(insort(k, b, seq![a]) == seq![a] + insort(k, b, seq![a].drop_first()));
    assert(insort(k, b, seq![a]) =~= seq![a] + seq![b]);
    assert(sort_by(k, s) =~= seq![a, b]);
    assert(sort_by(k, s).reverse() =~= seq![b, a]);
}

/// Stability at full strength on tied input: when every pair of entries
/// compares equal under the sort's order, the ascending sort returns the
/// sequence unchanged, and the descending mode therefore returns its exact
/// reversal.
pub proof fn lemma_sort_all_ties_identity(k: SortKey, s: Seq<EntryV>)
    requires
        forall|i: int, j: int|
            0 <= i < s.len() && 0 <= j < s.len() ==> entry_le(k, #[trigger] s[i], #[trigger] s[j]),
    ensures
        sort_by(k, s) == s,
    decreases s.len(),
{
    if s.len() > 0 {
        let t = s.drop_last();
        let e = s.last();
        assert(forall|i: int, j: int|
            0 <= i < t.len() && 0 <= j < t.len() ==> entry_le(k, #[trigger] t[i], #[trigger] t[j]));
        lemma_sort_all_ties_identity(k, t);
        assert(forall|j: int| 0 <= j < t.len() ==> entry_le(k, #[trigger] t[j], e));
        lemma_insort_at(k, e, t, t.len() as int);
        assert(t.take(t.len() as int) =~= t);
        assert(t.skip(t.len() as int) =~= Seq::<EntryV>::empty());
        assert(t + seq![e] + Seq::<EntryV>::empty() =~= s);
    }
}

/// Sorts the entries by the given key, stably and ascending; the result is
/// exactly the spec-level insertion sort of the input.
pub fn sort_entries(k: SortKey, v: &Vec<Entry>) -> (r: Vec<Entry>)
    ensures
        entries_view(r@) == sort_by(k, entries_view(v@)),
{
    let ghost s = entries_view(v@);
    let mut r: Vec<Entry> = Vec::new();
    let mut i: usize = 0;
    proof {
        assert(entries_view(r@) =~= sort_by(k, s.take(0)));
    }
    while i < v.len()
        invariant
            s == entries_view(v@),
            i <= v@.len(),
            entries_view(r@) == sort_by(k, s.take(i as int)),
            r@.len() == i,
        decreases v@.len() - i,
    {
        let e = clone_entry(&v[i]);
        let p = stable_position(k, &r, &e);
        let ghost rv = entries_view(r@);
        r.insert(p, e);
        proof {
            assert(s[i as int] == v@[i as int]@);
            lemma_insort_at(k, s[i as int], rv, p as int);
            assert(entries_view(r@) =~= rv.take(p as int) + seq![s[i as int]] + rv.skip(p as int));
            assert(s.take(i + 1).last() == s[i as int]);
            assert(s.take(i + 1).drop_last() =~= s.take(i as int));
            assert(entries_view(r@) =~= sort_by(k, s.take(i + 1)));
        }
        i += 1;
    }
    proof {
        assert(s.take(i as int) =~= s);
    }
    r
}

/// First position of `r` whose key is strictly greater than `e`'s: where a
/// stable insertion of `e` belongs.
fn stable_position(k: SortKey, r: &Vec<Entry>, e: &Entry) -> (p: usize)
    ensures
        p <= r@.len(),
        forall|j: int| 0 <= j < p ==> entry_le(k, #[trigger] entries_view(r@)[j], e@),
        p < r@.len() ==> !entry_le(k, entries_view(r@)[p as int], e@),
{
    let mut p: usize = 0;
    while p < r.len()
        invariant
            p <= r@.len(),
            forall|j: int| 0 <= j < p ==> entry_le(k, #[trigger] entries_view(r@)[j], e@),
        decreases r@.len() - p,
    {
        if !entry_le_exec(k, &r[p], e) {
            proof {
                assert(entries_view(r@)[p as int] == r@[p as int]@);
            }
            return p;
        }
        proof {
            assert(entries_view(r@)[p as int] == r@[p as int]@);
        }
        p += 1;
    }
    p
}

/// Reverses the entries in place.
pub fn reverse_entries(v: &mut Vec<Entry>)
    ensures
        entries_view(final(v)@) == entries_view(old(v)@).reverse(),
{
    let ghost orig = old(v)@;
    let mut r: Vec<Entry> = Vec::new();
    loop
        invariant
            orig == old(v)@,
            v@.len() + r@.len() == orig.len(),
            v@ == orig.take(v@.len() as int),
            forall|j: int| 0 <= j < r@.len() ==> r@[j] == orig[orig.len() - 1 - j],
        decreases v@.len(),
    {
        match v.pop() {
            Some(x) => {
                proof {
                    assert(orig.take((v@.len() + 1) as int).last() == orig[v@.len() as int]);
                    assert(orig.take((v@.len() + 1) as int).drop_last() =~= orig.take(
                        v@.len() as int,
                    ));
                }
                r.push(x);
            },
            None => {
                proof {
                    assert(r@.len() == orig.len());
                    assert forall|j: int| 0 <= j < r@.len() implies entries_view(r@)[j]
                        == entries_view(orig).reverse()[j] by {
                        assert(r@[j] == orig[orig.len() - 1 - j]);
                        assert(entries_view(r@)[j] == r@[j]@);
                        assert(entries_view(orig)[orig.len() - 1 - j] == orig[orig.len() - 1 - j]@);
                    }
                    assert(entries_view(r@) =~= entries_view(orig).reverse());
                }
                *v = r;
                return ;
            },
        }
    }
}

} // verus!
