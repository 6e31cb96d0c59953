//! Lists of `(key, value)` text entries used as maps: the model of a map is
//! the list of its entries' views, and a well-formed list holds each key at
//! most once.

use vstd::prelude::*;
use crate::registry::{first_index, lemma_first_index};
use crate::text::same_text;

verus! {

/// The keys of a list of entries.
pub open spec fn entry_keys(v: Seq<(String, String)>) -> Seq<Seq<char>> {
    v.map_values(|p: (String, String)| p.0@)
}

/// The views of a list of entries.
pub open spec fn entry_views(v: Seq<(String, String)>) -> Seq<(Seq<char>, Seq<char>)> {
    v.map_values(|p: (String, String)| (p.0@, p.1@))
}

/// No two entries share a key: the well-formedness of a list of entries.
pub open spec fn keys_distinct(v: Seq<(String, String)>) -> bool {
    forall|i: int, j: int| 0 <= i < j < v.len() ==> v[i].0@ != v[j].0@
}

/// The keys of a list of entry views.
pub open spec fn view_keys(w: Seq<(Seq<char>, Seq<char>)>) -> Seq<Seq<char>> {
    w.map_values(|e: (Seq<char>, Seq<char>)| e.0)
}

/// A map insertion on a list of entry views: the value of an existing key is
/// replaced in place, a new key is appended.
pub open spec fn view_insert(w: Seq<(Seq<char>, Seq<char>)>, key: Seq<char>, value: Seq<char>) -> Seq<
    (Seq<char>, Seq<char>),
> {
    match first_index(view_keys(w), key) {
        Some(i) => w.update(i, (key, value)),
        None => w.push((key, value)),
    }
}

/// A map insertion on a list of entries, in terms of their views.
pub open spec fn entries_insert(v: Seq<(String, String)>, key: Seq<char>, value: Seq<char>) -> Seq<
    (Seq<char>, Seq<char>),
> {
    view_insert(entry_views(v), key, value)
}

/// The map that `(key, value)` pairs make when inserted in order: each key
/// once, where it first occurs, with the value of its last occurrence.
pub open spec fn collected(pairs: Seq<(Seq<char>, Seq<char>)>) -> Seq<(Seq<char>, Seq<char>)>
    decreases pairs.len(),
{
    if pairs.len() == 0 {
        seq![]
    } else {
        view_insert(collected(pairs.drop_last()), pairs.last().0, pairs.last().1)
    }
}

/// The keys of the views are the keys of the entries.
pub proof fn lemma_entry_keys_by_views(v: Seq<(String, String)>)
    ensures
        view_keys(entry_views(v)) == entry_keys(v),
{
    assert(view_keys(entry_views(v)) =~= entry_keys(v));
}

/// Distinct keys among the views are distinct keys among the entries.
pub proof fn lemma_keys_distinct_by_views(v: Seq<(String, String)>)
    requires
        forall|i: int, j: int|
            0 <= i < j < v.len() ==> (#[trigger] entry_views(v)[i]).0 != (#[trigger] entry_views(v)[j]).0,
    ensures
        keys_distinct(v),
{
    assert forall|i: int, j: int| 0 <= i < j < v.len() implies v[i].0@ != v[j].0@ by {
        assert(entry_views(v)[i].0 == v[i].0@);
        assert(entry_views(v)[j].0 == v[j].0@);
    }
}

/// Insert `key` with `value` into `entries` as into a map: an entry with the
/// same key gets the new value in place, otherwise the entry is appended.
/// Distinct keys stay distinct.
pub fn insert_entry(entries: &mut Vec<(String, String)>, key: &str, value: String)
    ensures
        entry_views(final(entries)@) == entries_insert(old(entries)@, key@, value@),
        keys_distinct(old(entries)@) ==> keys_distinct(final(entries)@),
{
    proof {
        lemma_entry_keys_by_views(entries@);
    }
    let mut i: usize = 0;
    while i < entries.len()
        invariant
            i <= entries@.len(),
            entries@ == old(entries)@,
            view_keys(entry_views(entries@)) == entry_keys(entries@),
            forall|j: int| 0 <= j < i ==> entry_keys(entries@)[j] != key@,
        decreases entries.len() - i,
    {
        if same_text(entries[i].0.as_str(), key) {
            proof {
                lemma_first_index(entry_keys(entries@), key@, i as int);
            }
            let k = entries[i].0.clone();
            let ghost before = entries@;
            entries.set(i, (k, value));
            assert(entry_views(entries@) =~= entry_views(before).update(i as int, (key@, value@)));
            proof {
                if keys_distinct(old(entries)@) {
                    assert forall|a: int, b: int| 0 <= a < b < entries@.len() implies (
                    #[trigger] entry_views(entries@)[a]).0 != (#[trigger] entry_views(
                        entries@,
                    )[b]).0 by {
                        assert(entry_keys(before)[a] == before[a].0@);
                        assert(entry_keys(before)[b] == before[b].0@);
                    }
                    lemma_keys_distinct_by_views(entries@);
                }
            }
            return;
        }
        i = i + 1;
    }
    proof {
        lemma_first_index(entry_keys(entries@), key@, i as int);
    }
    let ghost before = entries@;
    entries.push((String::from_str(key), value));
    assert(entry_views(entries@) =~= entry_views(before).push((key@, value@)));
    proof {
        if keys_distinct(old(entries)@) {
            assert forall|a: int, b: int| 0 <= a < b < entries@.len() implies (
            #[trigger] entry_views(entries@)[a]).0 != (#[trigger] entry_views(entries@)[b]).0 by {
                assert(entry_keys(before)[a] == before[a].0@);
                if b < before.len() {
                    assert(entry_keys(before)[b] == before[b].0@);
                }
            }
            lemma_keys_distinct_by_views(entries@);
        }
    }
}

/// The entries that `pairs` make as a map (see [`collected`]); their keys
/// are distinct.
pub fn entries_from(pairs: Vec<(String, String)>) -> (r: Vec<(String, String)>)
    ensures
        keys_distinct(r@),
        entry_views(r@) == collected(entry_views(pairs@)),
{
    let mut out: Vec<(String, String)> = Vec::new();
    let mut i: usize = 0;
    while i < pairs.len()
        invariant
            i <= pairs@.len(),
            keys_distinct(out@),
            entry_views(out@) == collected(entry_views(pairs@).take(i as int)),
        decreases pairs.len() - i,
    {
        let ghost pv = entry_views(pairs@).take(i + 1);
        assert(pv.drop_last() =~= entry_views(pairs@).take(i as int));
        assert(pv.last() == (pairs@[i as int].0@, pairs@[i as int].1@));
        let value = pairs[i].1.clone();
        insert_entry(&mut out, pairs[i].0.as_str(), value);
        i = i + 1;
    }
    assert(entry_views(pairs@).take(pairs.len() as int) =~= entry_views(pairs@));
    out
}

} // verus!
