use vstd::prelude::*;
use crate::key::{lemma_precedes_irreflexive, lemma_precedes_transitive, precedes};
use crate::snippet::SnippetView;

verus! {

/// Snippets stand in the order of their keys, so no key occurs twice.
pub open spec fn sorted(l: Seq<SnippetView>) -> bool {
    forall|i: int, j: int| #![trigger l[i], l[j]] 0 <= i < j < l.len() ==> precedes(l[i].id, l[j].id)
}

/// Whether some snippet of `l` has the key `k`.
pub open spec fn has_key(l: Seq<SnippetView>, k: Seq<char>) -> bool {
    exists|i: int| #![trigger l[i]] 0 <= i < l.len() && l[i].id == k
}

/// The place in `l` of a snippet with the key `k`.
pub open spec fn place_of(l: Seq<SnippetView>, k: Seq<char>) -> int {
    choose|i: int| #![trigger l[i]] 0 <= i < l.len() && l[i].id == k
}

/// The mapping from key to snippet that a sequence of snippets stands for.
pub open spec fn entries_of(l: Seq<SnippetView>) -> Map<Seq<char>, SnippetView> {
    Map::new(|k: Seq<char>| has_key(l, k), |k: Seq<char>| l[place_of(l, k)])
}

/// In a sorted sequence a key is found at one place only.
pub proof fn lemma_place_unique(l: Seq<SnippetView>, i: int, j: int)
    requires
        sorted(l),
        0 <= i < l.len(),
        0 <= j < l.len(),
        l[i].id == l[j].id,
    ensures
        i == j,
{
    lemma_precedes_irreflexive(l[i].id);
}

/// Each snippet of a sorted sequence is the entry of its key.
pub proof fn lemma_entry_at(l: Seq<SnippetView>, i: int)
    requires
        sorted(l),
        0 <= i < l.len(),
    ensures
        has_key(l, l[i].id),
        entries_of(l).dom().contains(l[i].id),
        entries_of(l)[l[i].id] == l[i],
{
    lemma_place_unique(l, i, place_of(l, l[i].id));
}

/// A sorted sequence stands for a finite mapping with as many entries as it has snippets.
pub proof fn lemma_entries_len(l: Seq<SnippetView>)
    requires
        sorted(l),
    ensures
        entries_of(l).dom().finite(),
        entries_of(l).dom().len() == l.len(),
    decreases l.len(),
{
    if l.len() == 0 {
        assert(entries_of(l).dom() =~= Set::empty());
    } else {
        let init = l.drop_last();
        let last = l.last();
        assert(sorted(init)) by {
            assert forall|i: int, j: int| #![trigger init[i], init[j]] 0 <= i < j < init.len() implies precedes(
                init[i].id,
                init[j].id,
            ) by {
                assert(init[i] == l[i] && init[j] == l[j]);
            }
        }
        lemma_entries_len(init);
        assert(!has_key(init, last.id)) by {
            if has_key(init, last.id) {
                let i = place_of(init, last.id);
                assert(init[i] == l[i]);
                lemma_place_unique(l, i, l.len() - 1);
            }
        }
        assert(entries_of(l).dom() =~= entries_of(init).dom().insert(last.id)) by {
            assert forall|k: Seq<char>| has_key(l, k) <==> (has_key(init, k) || k == last.id) by {
                if has_key(l, k) {
                    let i = place_of(l, k);
                    if i < init.len() {
                        assert(init[i] == l[i]);
                    }
                }
                if has_key(init, k) {
                    let i = place_of(init, k);
                    assert(init[i] == l[i]);
                }
                if k == last.id {
                    assert(l[l.len() - 1].id == k);
                }
            }
        }
    }
}

/// Putting a snippet with a new key at its place in the order adds one entry.
pub proof fn lemma_insert_entries(l: Seq<SnippetView>, p: int, v: SnippetView)
    requires
        sorted(l),
        0 <= p <= l.len(),
        forall|i: int| #![trigger l[i]] 0 <= i < p ==> precedes(l[i].id, v.id),
        forall|i: int| #![trigger l[i]] p <= i < l.len() ==> precedes(v.id, l[i].id),
    ensures
        sorted(l.insert(p, v)),
        !has_key(l, v.id),
        entries_of(l.insert(p, v)) == entries_of(l).insert(v.id, v),
{
    let m = l.insert(p, v);
    assert(sorted(m)) by {
        assert forall|i: int, j: int| #![trigger m[i], m[j]] 0 <= i < j < m.len() implies precedes(
            m[i].id,
            m[j].id,
        ) by {
            if i < p && j > p {
                assert(m[i] == l[i] && m[j] == l[j - 1]);
            } else if i < p && j < p {
                assert(m[i] == l[i] && m[j] == l[j]);
            } else if i > p {
                assert(m[i] == l[i - 1] && m[j] == l[j - 1]);
            } else if i == p {
                assert(m[j] == l[j - 1]);
            } else {
                assert(m[i] == l[i]);
            }
        }
    }
    assert(!has_key(l, v.id)) by {
        if has_key(l, v.id) {
            let i = place_of(l, v.id);
            lemma_precedes_irreflexive(v.id);
        }
    }
    assert forall|k: Seq<char>| has_key(m, k) <==> (has_key(l, k) || k == v.id) by {
        if has_key(m, k) {
            let i = place_of(m, k);
            if i < p {
                assert(m[i] == l[i]);
            } else if i > p {
                assert(m[i] == l[i - 1]);
            }
        }
        if has_key(l, k) {
            let i = place_of(l, k);
            if i < p {
                assert(m[i] == l[i]);
            } else {
                assert(m[i + 1] == l[i]);
            }
        }
        if k == v.id {
            assert(m[p].id == k);
        }
    }
    assert forall|k: Seq<char>| has_key(m, k) implies entries_of(m)[k] == entries_of(l).insert(
        v.id,
        v,
    )[k] by {
        let i = place_of(m, k);
        if i == p {
        } else if i < p {
            assert(m[i] == l[i]);
            lemma_entry_at(l, i);
        } else {
            assert(m[i] == l[i - 1]);
            lemma_entry_at(l, i - 1);
            if k == v.id {
                lemma_precedes_irreflexive(v.id);
            }
        }
        if i != p && k == v.id {
            lemma_place_unique(m, i, p);
        }
    }
    assert(entries_of(m) =~= entries_of(l).insert(v.id, v));
}

/// Replacing a snippet by one with the same key replaces its entry.
pub proof fn lemma_update_entries(l: Seq<SnippetView>, p: int, v: SnippetView)
    requires
        sorted(l),
        0 <= p < l.len(),
        l[p].id == v.id,
    ensures
        sorted(l.update(p, v)),
        entries_of(l.update(p, v)) == entries_of(l).insert(v.id, v),
{
    let m = l.update(p, v);
    assert(sorted(m)) by {
        assert forall|i: int, j: int| #![trigger m[i], m[j]] 0 <= i < j < m.len() implies precedes(
            m[i].id,
            m[j].id,
        ) by {
            assert(m[i].id == l[i].id && m[j].id == l[j].id);
        }
    }
    assert forall|k: Seq<char>| has_key(m, k) <==> has_key(l, k) by {
        if has_key(m, k) {
            let i = place_of(m, k);
            assert(l[i].id == k);
        }
        if has_key(l, k) {
            let i = place_of(l, k);
            assert(m[i].id == k);
        }
    }
    assert(has_key(l, v.id));
    assert forall|k: Seq<char>| has_key(m, k) implies entries_of(m)[k] == entries_of(l).insert(
        v.id,
        v,
    )[k] by {
        let i = place_of(m, k);
        lemma_entry_at(m, i);
        if i != p {
            assert(m[i] == l[i]);
            lemma_entry_at(l, i);
            if k == v.id {
                lemma_place_unique(l, i, p);
            }
        }
    }
    assert(entries_of(m) =~= entries_of(l).insert(v.id, v));
}

/// Taking a snippet out takes its entry out.
pub proof fn lemma_remove_entries(l: Seq<SnippetView>, p: int)
    requires
        sorted(l),
        0 <= p < l.len(),
    ensures
        sorted(l.remove(p)),
        entries_of(l.remove(p)) == entries_of(l).remove(l[p].id),
{
    let m = l.remove(p);
    assert(sorted(m)) by {
        assert forall|i: int, j: int| #![trigger m[i], m[j]] 0 <= i < j < m.len() implies precedes(
            m[i].id,
            m[j].id,
        ) by {
            if j < p {
                assert(m[i] == l[i] && m[j] == l[j]);
            } else if i < p {
                assert(m[i] == l[i] && m[j] == l[j + 1]);
            } else {
                assert(m[i] == l[i + 1] && m[j] == l[j + 1]);
            }
        }
    }
    assert forall|k: Seq<char>| has_key(m, k) <==> (has_key(l, k) && k != l[p].id) by {
        if has_key(m, k) {
            let i = place_of(m, k);
            if i < p {
                assert(m[i] == l[i]);
                if k == l[p].id {
                    lemma_place_unique(l, i, p);
                }
            } else {
                assert(m[i] == l[i + 1]);
                if k == l[p].id {
                    lemma_place_unique(l, i + 1, p);
                }
            }
        }
        if has_key(l, k) && k != l[p].id {
            let i = place_of(l, k);
            if i < p {
                assert(m[i] == l[i]);
            } else {
                assert(m[i - 1] == l[i]);
            }
        }
    }
    assert forall|k: Seq<char>| has_key(m, k) implies entries_of(m)[k] == entries_of(l)[k] by {
        let i = place_of(m, k);
        lemma_entry_at(m, i);
        if i < p {
            assert(m[i] == l[i]);
            lemma_entry_at(l, i);
        } else {
            assert(m[i] == l[i + 1]);
            lemma_entry_at(l, i + 1);
        }
    }
    assert(entries_of(m) =~= entries_of(l).remove(l[p].id));
}

/// A sequence in which each snippet comes before the next one is sorted.
pub proof fn lemma_adjacent_sorted(l: Seq<SnippetView>)
    requires
        forall|i: int| #![trigger l[i]] 0 < i < l.len() ==> precedes(l[i - 1].id, l[i].id),
    ensures
        sorted(l),
{
    assert forall|i: int, j: int| #![trigger l[i], l[j]] 0 <= i < j < l.len() implies precedes(
        l[i].id,
        l[j].id,
    ) by {
        lemma_adjacent_reach(l, i, j);
    }
}

proof fn lemma_adjacent_reach(l: Seq<SnippetView>, i: int, j: int)
    requires
        forall|k: int| #![trigger l[k]] 0 < k < l.len() ==> precedes(l[k - 1].id, l[k].id),
        0 <= i < j < l.len(),
    ensures
        precedes(l[i].id, l[j].id),
    decreases j - i,
{
    assert(precedes(l[j - 1].id, l[j].id));
    if i < j - 1 {
        lemma_adjacent_reach(l, i, j - 1);
        lemma_precedes_transitive(l[i].id, l[j - 1].id, l[j].id);
    }
}

/// The snippets of a mapping in the order of their keys.
pub open spec fn in_order(entries: Map<Seq<char>, SnippetView>) -> Seq<SnippetView> {
    choose|l: Seq<SnippetView>| sorted(l) && entries_of(l) == entries
}

/// Two sorted sequences that stand for the same mapping are the same sequence.
pub proof fn lemma_sorted_unique(a: Seq<SnippetView>, b: Seq<SnippetView>)
    requires
        sorted(a),
        sorted(b),
        entries_of(a) == entries_of(b),
    ensures
        a == b,
    decreases a.len(),
{
    lemma_entries_len(a);
    lemma_entries_len(b);
    let n = a.len() as int;
    if n == 0 {
        assert(a =~= b);
    } else {
        lemma_entry_at(a, n - 1);
        lemma_entry_at(b, n - 1);
        let j = place_of(b, a[n - 1].id);
        let i = place_of(a, b[n - 1].id);
        assert(has_key(b, a[n - 1].id));
        assert(has_key(a, b[n - 1].id));
        if j < n - 1 {
            assert(precedes(b[j].id, b[n - 1].id));
            if i < n - 1 {
                assert(precedes(a[i].id, a[n - 1].id));
                lemma_precedes_transitive(a[n - 1].id, b[n - 1].id, a[n - 1].id);
            }
            lemma_precedes_irreflexive(a[n - 1].id);
        }
        assert(a[n - 1] == b[n - 1]);
        lemma_remove_entries(a, n - 1);
        lemma_remove_entries(b, n - 1);
        assert(a.remove(n - 1) =~= a.drop_last());
        assert(b.remove(n - 1) =~= b.drop_last());
        lemma_sorted_unique(a.drop_last(), b.drop_last());
        assert(a =~= a.drop_last().push(a[n - 1]));
        assert(b =~= b.drop_last().push(b[n - 1]));
    }
}

/// A sorted sequence is the listing in key order of the mapping it stands for.
pub proof fn lemma_in_order(l: Seq<SnippetView>)
    requires
        sorted(l),
    ensures
        in_order(entries_of(l)) == l,
{
    let m = in_order(entries_of(l));
    assert(sorted(m) && entries_of(m) == entries_of(l));
    lemma_sorted_unique(m, l);
}

} // verus!
