//! Lists of `(id, value)` entries and what applying them to a map does.
//! Edit operations store the nodes and beams they create or remove as such
//! lists, so that undo and redo can put them back or take them out again.

use vstd::prelude::*;

use crate::collections::lists_entries;

verus! {

/// The ids that appear in the list.
pub open spec fn keys_of<V>(s: Seq<(u32, V)>) -> Set<u32> {
    Set::new(|k: u32| exists|i: int| 0 <= i < s.len() && #[trigger] s[i].0 == k)
}

/// No id appears twice in the list.
pub open spec fn distinct_keys<V>(s: Seq<(u32, V)>) -> bool {
    forall|i: int, j: int| 0 <= i < j < s.len() ==> #[trigger] s[i].0 != #[trigger] s[j].0
}

/// Every entry of the list is in the map, with that value.
pub open spec fn all_present<V>(m: Map<u32, V>, s: Seq<(u32, V)>) -> bool {
    forall|i: int| 0 <= i < s.len() ==> m.contains_key(#[trigger] s[i].0) && m[s[i].0] == s[i].1
}

/// No id of the list is in the map.
pub open spec fn all_absent<V>(m: Map<u32, V>, s: Seq<(u32, V)>) -> bool {
    forall|i: int| 0 <= i < s.len() ==> !m.contains_key(#[trigger] s[i].0)
}

/// The map after inserting the entries in list order.
pub open spec fn insert_entries<V>(m: Map<u32, V>, s: Seq<(u32, V)>) -> Map<u32, V>
    decreases s.len(),
{
    if s.len() == 0 {
        m
    } else {
        insert_entries(m, s.drop_last()).insert(s.last().0, s.last().1)
    }
}

/// The map after removing the ids of the list.
pub open spec fn remove_entries<V>(m: Map<u32, V>, s: Seq<(u32, V)>) -> Map<u32, V>
    decreases s.len(),
{
    if s.len() == 0 {
        m
    } else {
        remove_entries(m, s.drop_last()).remove(s.last().0)
    }
}

/// Removing the ids of a list is removing its key set.
pub proof fn lemma_remove_entries<V>(m: Map<u32, V>, s: Seq<(u32, V)>)
    ensures
        remove_entries(m, s) == m.remove_keys(keys_of(s)),
    decreases s.len(),
{
    if s.len() == 0 {
        assert(m.remove_keys(keys_of(s)) =~= m);
    } else {
        let t = s.drop_last();
        lemma_remove_entries(m, t);
        assert(m.remove_keys(keys_of(t)).remove(s.last().0) =~= m.remove_keys(keys_of(s))) by {
            assert forall|k: u32| keys_of(s).contains(k) <==> keys_of(t).contains(k) || k == s.last().0 by {
                if keys_of(s).contains(k) && k != s.last().0 {
                    let i = choose|i: int| 0 <= i < s.len() && #[trigger] s[i].0 == k;
                    assert(t[i].0 == k);
                }
                if keys_of(t).contains(k) {
                    let i = choose|i: int| 0 <= i < t.len() && #[trigger] t[i].0 == k;
                    assert(s[i].0 == k);
                }
                if k == s.last().0 {
                    assert(s[s.len() - 1].0 == k);
                }
            }
        }
    }
}

/// What inserting a list of entries gives, whatever the ids: the map's
/// entries for every id not in the list, and for an id of the list the value
/// of one of its entries (the last one).
pub proof fn lemma_insert_entries_any<V>(m: Map<u32, V>, s: Seq<(u32, V)>)
    ensures
        forall|k: u32| #[trigger] insert_entries(m, s).contains_key(k) <==> (m.contains_key(k) || keys_of(s).contains(k)),
        forall|k: u32| m.contains_key(k) && !keys_of(s).contains(k) ==> #[trigger] insert_entries(m, s)[k] == m[k],
        forall|k: u32| #[trigger] keys_of(s).contains(k) ==> exists|j: int|
            0 <= j < s.len() && s[j].0 == k && #[trigger] insert_entries(m, s)[k] == s[j].1,
    decreases s.len(),
{
    if s.len() > 0 {
        let t = s.drop_last();
        lemma_insert_entries_any(m, t);
        let r = insert_entries(m, s);
        assert forall|k: u32| keys_of(s).contains(k) <==> keys_of(t).contains(k) || k == s.last().0 by {
            if keys_of(s).contains(k) && k != s.last().0 {
                let i = choose|i: int| 0 <= i < s.len() && #[trigger] s[i].0 == k;
                assert(t[i].0 == k);
            }
            if keys_of(t).contains(k) {
                let i = choose|i: int| 0 <= i < t.len() && #[trigger] t[i].0 == k;
                assert(s[i].0 == k);
            }
            if k == s.last().0 {
                assert(s[s.len() - 1].0 == k);
            }
        }
        let q = insert_entries(m, t);
        assert(r == q.insert(s.last().0, s.last().1));
        assert forall|k: u32| #[trigger] r.contains_key(k) <==> (m.contains_key(k) || keys_of(s).contains(k)) by {
            assert(keys_of(s).contains(k) <==> keys_of(t).contains(k) || k == s.last().0);
            assert(q.contains_key(k) <==> (m.contains_key(k) || keys_of(t).contains(k)));
        }
        assert forall|k: u32| m.contains_key(k) && !keys_of(s).contains(k) implies #[trigger] r[k] == m[k] by {
            assert(keys_of(s).contains(k) <==> keys_of(t).contains(k) || k == s.last().0);
            assert(!keys_of(t).contains(k) && k != s.last().0);
            assert(q[k] == m[k]);
        }
        assert forall|k: u32| #[trigger] keys_of(s).contains(k) implies exists|j: int|
            0 <= j < s.len() && s[j].0 == k && #[trigger] r[k] == s[j].1 by {
            if k == s.last().0 {
                assert(s[s.len() - 1].0 == k && r[k] == s[s.len() - 1].1);
            } else {
                assert(keys_of(t).contains(k));
                let j = choose|j: int| 0 <= j < t.len() && t[j].0 == k && #[trigger] insert_entries(m, t)[k] == t[j].1;
                assert(s[j] == t[j]);
                assert(r[k] == s[j].1);
            }
        }
    }
}

/// What inserting a list of entries with distinct ids gives: the list's
/// entries, and the map's entries for every other id.
pub proof fn lemma_insert_entries<V>(m: Map<u32, V>, s: Seq<(u32, V)>)
    requires
        distinct_keys(s),
    ensures
        forall|k: u32| #[trigger] insert_entries(m, s).contains_key(k) <==> (m.contains_key(k) || keys_of(s).contains(k)),
        forall|k: u32| m.contains_key(k) && !keys_of(s).contains(k) ==> #[trigger] insert_entries(m, s)[k] == m[k],
        all_present(insert_entries(m, s), s),
    decreases s.len(),
{
    if s.len() > 0 {
        let t = s.drop_last();
        lemma_insert_entries(m, t);
        let r = insert_entries(m, s);
        assert forall|k: u32| keys_of(s).contains(k) <==> keys_of(t).contains(k) || k == s.last().0 by {
            if keys_of(s).contains(k) && k != s.last().0 {
                let i = choose|i: int| 0 <= i < s.len() && #[trigger] s[i].0 == k;
                assert(t[i].0 == k);
            }
            if keys_of(t).contains(k) {
                let i = choose|i: int| 0 <= i < t.len() && #[trigger] t[i].0 == k;
                assert(s[i].0 == k);
            }
            if k == s.last().0 {
                assert(s[s.len() - 1].0 == k);
            }
        }
        assert forall|i: int| 0 <= i < s.len() implies r.contains_key(#[trigger] s[i].0) && r[s[i].0] == s[i].1 by {
            if i < s.len() - 1 {
                assert(t[i] == s[i]);
                assert(s[i].0 != s[s.len() - 1].0);
            }
        }
    }
}

/// Inserting entries whose ids were absent, then removing those ids, gives
/// back the map.
pub proof fn lemma_insert_then_remove<V>(m: Map<u32, V>, s: Seq<(u32, V)>)
    requires
        all_absent(m, s),
    ensures
        remove_entries(insert_entries(m, s), s) == m,
{
    lemma_insert_entries_any(m, s);
    lemma_remove_entries(insert_entries(m, s), s);
    assert forall|k: u32| keys_of(s).contains(k) implies !m.contains_key(k) by {
        let i = choose|i: int| 0 <= i < s.len() && #[trigger] s[i].0 == k;
    }
    assert(insert_entries(m, s).remove_keys(keys_of(s)) =~= m);
}

/// Removing the ids of entries that are in the map, then inserting the
/// entries, gives back the map. An id listed twice is listed with the same
/// value both times, since each entry agrees with the map.
pub proof fn lemma_remove_then_insert<V>(m: Map<u32, V>, s: Seq<(u32, V)>)
    requires
        all_present(m, s),
    ensures
        insert_entries(remove_entries(m, s), s) == m,
{
    lemma_remove_entries(m, s);
    let r = remove_entries(m, s);
    lemma_insert_entries_any(r, s);
    assert forall|k: u32| keys_of(s).contains(k) implies m.contains_key(k) by {
        let i = choose|i: int| 0 <= i < s.len() && #[trigger] s[i].0 == k;
    }
    assert forall|k: u32| keys_of(s).contains(k) implies #[trigger] insert_entries(r, s)[k] == m[k] by {
        let j = choose|j: int| 0 <= j < s.len() && s[j].0 == k && #[trigger] insert_entries(r, s)[k] == s[j].1;
        assert(m[s[j].0] == s[j].1);
    }
    assert(insert_entries(r, s) =~= m);
}

/// After removing the ids of a list, none of them is in the map.
pub proof fn lemma_removed_absent<V>(m: Map<u32, V>, s: Seq<(u32, V)>)
    ensures
        all_absent(remove_entries(m, s), s),
{
    lemma_remove_entries(m, s);
    assert forall|i: int| 0 <= i < s.len() implies !remove_entries(m, s).contains_key(#[trigger] s[i].0) by {
        assert(keys_of(s).contains(s[i].0));
    }
}

/// A list that holds every entry of a map exactly once has distinct ids,
/// agrees with the map, and rebuilds it when inserted into an empty map.
pub proof fn lemma_lists_entries<V>(s: Seq<(u32, V)>, m: Map<u32, V>)
    requires
        lists_entries(s, m),
    ensures
        distinct_keys(s),
        all_present(m, s),
        keys_of(s) == m.dom(),
        insert_entries(Map::<u32, V>::empty(), s) == m,
{
    assert(keys_of(s) =~= m.dom()) by {
        assert forall|k: u32| keys_of(s).contains(k) implies m.contains_key(k) by {
            let i = choose|i: int| 0 <= i < s.len() && #[trigger] s[i].0 == k;
        }
    }
    lemma_insert_entries(Map::<u32, V>::empty(), s);
    let r = insert_entries(Map::<u32, V>::empty(), s);
    assert forall|k: u32| m.contains_key(k) implies #[trigger] r[k] == m[k] by {
        let i = choose|i: int| 0 <= i < s.len() && #[trigger] s[i].0 == k;
    }
    assert(r =~= m);
}

/// A list that holds every entry of a map exactly once is as long as the
/// map is large; the map is finite.
pub proof fn lemma_lists_entries_len<V>(s: Seq<(u32, V)>, m: Map<u32, V>)
    requires
        lists_entries(s, m),
    ensures
        m.dom().finite(),
        m.dom().len() == s.len(),
{
    lemma_lists_entries(s, m);
    let ks = s.map_values(|e: (u32, V)| e.0);
    assert(ks.no_duplicates()) by {
        assert forall|i: int, j: int| 0 <= i < ks.len() && 0 <= j < ks.len() && i != j implies ks[i] != ks[j] by {
            if i < j {
                assert(s[i].0 != s[j].0);
            } else {
                assert(s[j].0 != s[i].0);
            }
        }
    }
    assert(ks.to_set() =~= m.dom()) by {
        assert forall|k: u32| ks.to_set().contains(k) <==> keys_of(s).contains(k) by {
            if ks.to_set().contains(k) {
                let i = choose|i: int| 0 <= i < ks.len() && ks[i] == k;
                assert(s[i].0 == k);
            }
            if keys_of(s).contains(k) {
                let i = choose|i: int| 0 <= i < s.len() && #[trigger] s[i].0 == k;
                assert(ks[i] == k);
            }
        }
    }
    ks.unique_seq_to_set();
    vstd::seq_lib::seq_to_set_is_finite(ks);
}

} // verus!
