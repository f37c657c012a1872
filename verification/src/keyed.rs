//! Tables that are held as vectors in which no key occurs twice.
use vstd::prelude::*;

verus! {

/// Whether elements were picked from a list in its order, each from its place.
pub open spec fn picked_from<T>(picked: Seq<T>, all: Seq<T>, places: Seq<int>) -> bool {
    &&& places.len() == picked.len()
    &&& forall|k: int| 0 <= k < places.len() ==> 0 <= #[trigger] places[k] < all.len()
    &&& forall|k: int| 0 <= k < places.len() ==> #[trigger] picked[k] == all[places[k]]
    &&& forall|k: int, l: int|
        0 <= k < l < places.len() ==> #[trigger] places[k] < #[trigger] places[l]
}

/// Whether a bounded list is another one with an item behind it, of which the
/// oldest gave way where the bound was reached.
pub open spec fn grown_within<T>(before: Seq<T>, after: Seq<T>, bound: nat, item: T) -> bool {
    let dropped: int = if before.len() < bound {
        0
    } else {
        1
    };
    &&& after.len() == before.len() + 1 - dropped
    &&& after.last() == item
    &&& forall|i: int| 0 <= i < after.len() - 1 ==> #[trigger] after[i] == before[i + dropped]
}

/// Whether a list is another one with another last item.
pub open spec fn ends_otherwise<T>(before: Seq<T>, after: Seq<T>, item: T) -> bool {
    &&& after.len() == before.len()
    &&& after.last() == item
    &&& forall|i: int| 0 <= i < before.len() - 1 ==> #[trigger] after[i] == before[i]
}

/// Puts the next place behind the others that were picked.
pub proof fn lemma_pick_next<T>(picked: Seq<T>, all: Seq<T>, places: Seq<int>, next: T)
    requires
        picked_from(picked, all, places),
    ensures
        picked_from(picked, all.push(next), places),
        picked_from(picked.push(next), all.push(next), places.push(all.len() as int)),
        forall|i: int| places.push(all.len() as int).contains(i) <==> (places.contains(i) || i
            == all.len()),
{
    let longer = all.push(next);
    let more = places.push(all.len() as int);
    assert forall|k: int| 0 <= k < places.len() implies #[trigger] picked[k]
        == longer[places[k]] by {
        assert(0 <= places[k] < all.len());
    }
    assert forall|k: int| 0 <= k < more.len() implies #[trigger] picked.push(next)[k]
        == longer[more[k]] by {
        if k < places.len() {
            assert(picked[k] == all[places[k]]);
            assert(0 <= places[k] < all.len());
        }
    }
    assert forall|i: int| more.contains(i) <==> (places.contains(i) || i == all.len()) by {
        if places.contains(i) {
            let k = choose|k: int| 0 <= k < places.len() && places[k] == i;
            assert(more[k] == i);
        }
        if i == all.len() {
            assert(more[places.len() as int] == i);
        }
        if more.contains(i) && i != all.len() {
            let k = choose|k: int| 0 <= k < more.len() && more[k] == i;
            assert(places[k] == i);
        }
    }
}

/// A filter picks exactly the elements that it lets through, in their order.
pub proof fn lemma_filter_picks<T>(all: Seq<T>, keep: spec_fn(T) -> bool) -> (places: Seq<int>)
    ensures
        picked_from(all.filter(keep), all, places),
        forall|i: int| 0 <= i < all.len() ==> (#[trigger] places.contains(i) <==> keep(all[i])),
    decreases all.len(),
{
    reveal(Seq::filter);
    if all.len() == 0 {
        seq![]
    } else {
        let rest = all.drop_last();
        let before = lemma_filter_picks(rest, keep);
        lemma_pick_next(rest.filter(keep), rest, before, all.last());
        assert(rest.push(all.last()) =~= all);
        let places = if keep(all.last()) {
            before.push(rest.len() as int)
        } else {
            before
        };
        assert forall|i: int| 0 <= i < all.len() implies (#[trigger] places.contains(i) <==> keep(
            all[i],
        )) by {
            if i < rest.len() {
                assert(rest[i] == all[i]);
                assert(before.contains(i) <==> keep(rest[i]));
            } else if before.contains(i) {
                let k = choose|k: int| 0 <= k < before.len() && before[k] == i;
                assert(before[k] < rest.len());
            }
        }
        places
    }
}

/// No two elements have the same key.
pub open spec fn unique_keys<V>(s: Seq<V>, key: spec_fn(V) -> Seq<char>) -> bool {
    forall|i: int, j: int|
        0 <= i < j < s.len() ==> key(#[trigger] s[i]) != key(#[trigger] s[j])
}

/// Whether an element has the key.
pub open spec fn has_key<V>(s: Seq<V>, key: spec_fn(V) -> Seq<char>, k: Seq<char>) -> bool {
    exists|i: int| 0 <= i < s.len() && key(#[trigger] s[i]) == k
}

/// The elements by their keys.
pub open spec fn as_map<V>(s: Seq<V>, key: spec_fn(V) -> Seq<char>) -> Map<Seq<char>, V> {
    Map::new(
        |k: Seq<char>| has_key(s, key, k),
        |k: Seq<char>| s[choose|i: int| 0 <= i < s.len() && key(#[trigger] s[i]) == k],
    )
}

pub proof fn lemma_lookup<V>(s: Seq<V>, key: spec_fn(V) -> Seq<char>, at: int)
    requires
        unique_keys(s, key),
        0 <= at < s.len(),
    ensures
        as_map(s, key).contains_key(key(s[at])),
        as_map(s, key)[key(s[at])] == s[at],
{
    let k = key(s[at]);
    assert(has_key(s, key, k));
    let found = choose|i: int| 0 <= i < s.len() && key(#[trigger] s[i]) == k;
    if found < at {
        assert(key(s[found]) != key(s[at]));
    } else if at < found {
        assert(key(s[at]) != key(s[found]));
    }
}

pub proof fn lemma_insert<V>(s: Seq<V>, key: spec_fn(V) -> Seq<char>, at: int, value: V)
    requires
        unique_keys(s, key),
        0 <= at <= s.len(),
        !has_key(s, key, key(value)),
    ensures
        unique_keys(s.insert(at, value), key),
        as_map(s.insert(at, value), key) == as_map(s, key).insert(key(value), value),
{
    let t = s.insert(at, value);
    assert forall|i: int, j: int| 0 <= i < j < t.len() implies key(#[trigger] t[i]) != key(
        #[trigger] t[j],
    ) by {
        let a = if i < at {
            i
        } else {
            i - 1
        };
        let b = if j < at {
            j
        } else {
            j - 1
        };
        if i == at {
            assert(key(s[b]) != key(value));
        } else if j == at {
            assert(key(s[a]) != key(value));
        } else {
            assert(key(s[a]) != key(s[b]));
        }
    }
    assert(t[at] == value);
    lemma_lookup(t, key, at);
    let left = as_map(t, key);
    let right = as_map(s, key).insert(key(value), value);
    assert forall|k: Seq<char>| left.contains_key(k) == right.contains_key(k) by {
        if has_key(t, key, k) {
            let i = choose|i: int| 0 <= i < t.len() && key(#[trigger] t[i]) == k;
            if i < at {
                assert(key(s[i]) == k);
            } else if i > at {
                assert(key(s[i - 1]) == k);
            }
        }
        if has_key(s, key, k) {
            let i = choose|i: int| 0 <= i < s.len() && key(#[trigger] s[i]) == k;
            if i < at {
                assert(key(t[i]) == k);
            } else {
                assert(key(t[i + 1]) == k);
            }
        }
    }
    assert forall|k: Seq<char>| left.contains_key(k) implies left[k] == right[k] by {
        if k != key(value) {
            assert(has_key(s, key, k));
            let i = choose|i: int| 0 <= i < s.len() && key(#[trigger] s[i]) == k;
            lemma_lookup(s, key, i);
            if i < at {
                lemma_lookup(t, key, i);
            } else {
                lemma_lookup(t, key, i + 1);
            }
        }
    }
    assert(left =~= right);
}

pub proof fn lemma_push<V>(s: Seq<V>, key: spec_fn(V) -> Seq<char>, value: V)
    requires
        unique_keys(s, key),
        !has_key(s, key, key(value)),
    ensures
        unique_keys(s.push(value), key),
        as_map(s.push(value), key) == as_map(s, key).insert(key(value), value),
{
    lemma_insert(s, key, s.len() as int, value);
    assert(s.insert(s.len() as int, value) =~= s.push(value));
}

pub proof fn lemma_update<V>(s: Seq<V>, key: spec_fn(V) -> Seq<char>, at: int, value: V)
    requires
        unique_keys(s, key),
        0 <= at < s.len(),
        key(value) == key(s[at]),
    ensures
        unique_keys(s.update(at, value), key),
        as_map(s.update(at, value), key) == as_map(s, key).insert(key(value), value),
{
    let t = s.update(at, value);
    assert forall|i: int, j: int| 0 <= i < j < t.len() implies key(#[trigger] t[i]) != key(
        #[trigger] t[j],
    ) by {
        assert(key(s[i]) != key(s[j]));
    }
    let left = as_map(t, key);
    let right = as_map(s, key).insert(key(value), value);
    assert forall|k: Seq<char>| left.contains_key(k) == right.contains_key(k) by {
        if has_key(t, key, k) {
            let i = choose|i: int| 0 <= i < t.len() && key(#[trigger] t[i]) == k;
            assert(key(s[i]) == k);
        }
        if has_key(s, key, k) {
            let i = choose|i: int| 0 <= i < s.len() && key(#[trigger] s[i]) == k;
            assert(key(t[i]) == k);
        }
        assert(key(t[at]) == key(value));
    }
    assert forall|k: Seq<char>| left.contains_key(k) implies left[k] == right[k] by {
        let i = choose|i: int| 0 <= i < t.len() && key(#[trigger] t[i]) == k;
        lemma_lookup(t, key, i);
        lemma_lookup(s, key, i);
        if i == at {
        } else if i < at {
            assert(key(s[i]) != key(s[at]));
        } else {
            assert(key(s[at]) != key(s[i]));
        }
    }
    assert(left =~= right);
}

pub proof fn lemma_remove<V>(s: Seq<V>, key: spec_fn(V) -> Seq<char>, at: int)
    requires
        unique_keys(s, key),
        0 <= at < s.len(),
    ensures
        unique_keys(s.remove(at), key),
        !has_key(s.remove(at), key, key(s[at])),
        as_map(s.remove(at), key) == as_map(s, key).remove(key(s[at])),
{
    let t = s.remove(at);
    let gone = key(s[at]);
    assert forall|i: int, j: int| 0 <= i < j < t.len() implies key(#[trigger] t[i]) != key(
        #[trigger] t[j],
    ) by {
        let a = if i < at {
            i
        } else {
            i + 1
        };
        let b = if j < at {
            j
        } else {
            j + 1
        };
        assert(key(s[a]) != key(s[b]));
    }
    assert forall|i: int| 0 <= i < t.len() implies key(#[trigger] t[i]) != gone by {
        if i < at {
            assert(key(s[i]) != key(s[at]));
        } else {
            assert(key(s[at]) != key(s[i + 1]));
        }
    }
    let left = as_map(t, key);
    let right = as_map(s, key).remove(gone);
    assert forall|k: Seq<char>| left.contains_key(k) == right.contains_key(k) by {
        if has_key(t, key, k) {
            let i = choose|i: int| 0 <= i < t.len() && key(#[trigger] t[i]) == k;
            if i < at {
                assert(key(s[i]) == k);
            } else {
                assert(key(s[i + 1]) == k);
            }
        }
        if has_key(s, key, k) && k != gone {
            let i = choose|i: int| 0 <= i < s.len() && key(#[trigger] s[i]) == k;
            if i < at {
                assert(key(t[i]) == k);
            } else {
                assert(key(t[i - 1]) == k);
            }
        }
    }
    assert forall|k: Seq<char>| left.contains_key(k) implies left[k] == right[k] by {
        let i = choose|i: int| 0 <= i < t.len() && key(#[trigger] t[i]) == k;
        lemma_lookup(t, key, i);
        if i < at {
            lemma_lookup(s, key, i);
        } else {
            lemma_lookup(s, key, i + 1);
        }
    }
    assert(left =~= right);
}

} // verus!
