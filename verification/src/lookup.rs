//! Lists that are searched by a property of their items: where the first
//! match stands, and what it is to put an item in its place.

use vstd::prelude::*;

verus! {

/// The place of the first item of `s` that satisfies `p`, or the length of
/// `s` where none does.
pub open spec fn first_match<T>(s: Seq<T>, p: spec_fn(T) -> bool) -> int
    decreases s.len(),
{
    if s.len() == 0 {
        0
    } else if p(s[0]) {
        0
    } else {
        1 + first_match(s.drop_first(), p)
    }
}

/// Whether some item of `s` satisfies `p`.
pub open spec fn has_match<T>(s: Seq<T>, p: spec_fn(T) -> bool) -> bool {
    first_match(s, p) < s.len()
}

/// The first item of `s` that satisfies `p`.
pub open spec fn lookup<T>(s: Seq<T>, p: spec_fn(T) -> bool) -> Option<T> {
    if has_match(s, p) {
        Some(s[first_match(s, p)])
    } else {
        None
    }
}

/// `s` with `item` in the place of the first item that satisfies `p`, or at
/// the end where none does.
pub open spec fn upsert<T>(s: Seq<T>, p: spec_fn(T) -> bool, item: T) -> Seq<T> {
    if has_match(s, p) {
        s.update(first_match(s, p), item)
    } else {
        s.push(item)
    }
}

/// `s` without the first item that satisfies `p`.
pub open spec fn without_first<T>(s: Seq<T>, p: spec_fn(T) -> bool) -> Seq<T> {
    if has_match(s, p) {
        s.remove(first_match(s, p))
    } else {
        s
    }
}

/// The place of the last item of `s` that satisfies `p`, or `-1` where none
/// does.
pub open spec fn last_match<T>(s: Seq<T>, p: spec_fn(T) -> bool) -> int
    decreases s.len(),
{
    if s.len() == 0 {
        -1
    } else if p(s.last()) {
        s.len() - 1
    } else {
        last_match(s.drop_last(), p)
    }
}

/// The last match is a match, and nothing after it is one.
pub proof fn lemma_last_match<T>(s: Seq<T>, p: spec_fn(T) -> bool)
    ensures
        -1 <= last_match(s, p) < s.len(),
        last_match(s, p) >= 0 ==> p(s[last_match(s, p)]),
        forall|j: int| last_match(s, p) < j < s.len() ==> !p(#[trigger] s[j]),
    decreases s.len(),
{
    if s.len() > 0 && !p(s.last()) {
        let rest = s.drop_last();
        lemma_last_match(rest, p);
        assert forall|j: int| last_match(s, p) < j < s.len() implies !p(#[trigger] s[j]) by {
            if j < rest.len() {
                assert(s[j] == rest[j]);
            }
        }
    }
}

/// A place is the last match if it holds a match, or is `-1`, and nothing
/// after it is a match.
pub proof fn lemma_last_match_is<T>(s: Seq<T>, p: spec_fn(T) -> bool, i: int)
    requires
        -1 <= i < s.len(),
        i >= 0 ==> p(s[i]),
        forall|j: int| i < j < s.len() ==> !p(#[trigger] s[j]),
    ensures
        last_match(s, p) == i,
{
    lemma_last_match(s, p);
    let l = last_match(s, p);
    if l > i {
        assert(!p(s[l]));
    }
}

/// What a list holds after one more item: what it held, and the item.
pub proof fn lemma_push_contains<T>(s: Seq<T>, x: T)
    ensures
        forall|t: T| #[trigger] s.push(x).contains(t) <==> (s.contains(t) || t == x),
{
    assert forall|t: T| #[trigger] s.push(x).contains(t) <==> (s.contains(t) || t == x) by {
        if s.contains(t) {
            let k = choose|k: int| 0 <= k < s.len() && s[k] == t;
            assert(s.push(x)[k] == t);
        }
        if t == x {
            assert(s.push(x)[s.len() as int] == x);
        }
    }
}

/// A list without repeats stays so with an item that it did not hold.
pub proof fn lemma_push_no_duplicates<T>(s: Seq<T>, x: T)
    requires
        s.no_duplicates(),
        !s.contains(x),
    ensures
        s.push(x).no_duplicates(),
{
}

/// A set that leaves out a member of a finite set that holds it is finite,
/// and the smaller of the two.
pub proof fn lemma_set_has_room<T>(seen: Set<T>, all: Set<T>, missing: T)
    requires
        all.finite(),
        seen.subset_of(all),
        all.contains(missing),
        !seen.contains(missing),
    ensures
        seen.finite(),
        seen.len() < all.len(),
{
    let rest = all.remove(missing);
    assert(seen.subset_of(rest));
    vstd::set_lib::lemma_len_subset(seen, rest);
}

/// A list without repeats is no longer than a list that holds all its items.
pub proof fn lemma_fits<T>(seen: Seq<T>, all: Seq<T>)
    requires
        seen.no_duplicates(),
        forall|x: T| seen.contains(x) ==> all.contains(x),
    ensures
        seen.len() <= all.len(),
{
    seen.unique_seq_to_set();
    all.lemma_cardinality_of_set();
    assert(seen.to_set().subset_of(all.to_set())) by {
        assert forall|x: T| seen.to_set().contains(x) implies all.to_set().contains(x) by {
            assert(seen.contains(x));
        }
    }
    vstd::set_lib::lemma_len_subset(seen.to_set(), all.to_set());
}

/// A list without repeats that leaves out an item of another list is the
/// shorter of the two.
pub proof fn lemma_room_for_one<T>(seen: Seq<T>, all: Seq<T>, missing: T)
    requires
        seen.no_duplicates(),
        forall|x: T| seen.contains(x) ==> all.contains(x),
        all.contains(missing),
        !seen.contains(missing),
    ensures
        seen.len() < all.len(),
{
    seen.unique_seq_to_set();
    all.lemma_cardinality_of_set();
    let rest = all.to_set().remove(missing);
    assert(seen.to_set().subset_of(rest)) by {
        assert forall|x: T| seen.to_set().contains(x) implies rest.contains(x) by {
            assert(seen.contains(x));
        }
    }
    vstd::set_lib::lemma_len_subset(seen.to_set(), rest);
    assert(all.to_set().contains(missing));
}

/// Whether `index` says of every key of `keys` where it stands, and of
/// nothing else.
pub open spec fn is_index(index: Map<u64, usize>, keys: Seq<u64>) -> bool {
    &&& forall|i: int|
        0 <= i < keys.len() ==> index.contains_key(#[trigger] keys[i]) && index[keys[i]] == i
    &&& forall|k: u64| #[trigger]
        index.contains_key(k) ==> index[k] < keys.len() && keys[index[k] as int] == k
}

/// An index finds the first, and only, item of a key: where the index has
/// the key, the item stands at the place it says, and where it has not, no
/// item has the key.
pub proof fn lemma_index_finds<T>(
    index: Map<u64, usize>,
    s: Seq<T>,
    key: spec_fn(T) -> u64,
    p: spec_fn(T) -> bool,
    k: u64,
)
    requires
        is_index(index, s.map_values(key)),
        forall|t: T| #[trigger] p(t) == (key(t) == k),
    ensures
        first_match(s, p) == if index.contains_key(k) {
            index[k] as int
        } else {
            s.len() as int
        },
{
    let keys = s.map_values(key);
    let at = if index.contains_key(k) {
        index[k] as int
    } else {
        s.len() as int
    };
    assert forall|j: int| 0 <= j < at implies !p(#[trigger] s[j]) by {
        if p(s[j]) {
            assert(keys[j] == k);
            assert(index.contains_key(keys[j]) && index[keys[j]] == j);
        }
    }
    if index.contains_key(k) {
        assert(keys[at] == k);
        assert(p(s[at]));
    }
    lemma_first_match_is(s, p, at);
}

/// Items that an index covers have distinct keys.
pub proof fn lemma_index_distinct<T>(index: Map<u64, usize>, s: Seq<T>, key: spec_fn(T) -> u64)
    requires
        is_index(index, s.map_values(key)),
    ensures
        distinct_by(s, key),
{
    let keys = s.map_values(key);
    assert forall|i: int, j: int| 0 <= i < j < s.len() implies key(s[i]) != key(s[j]) by {
        assert(index[keys[i]] == i);
        assert(index[keys[j]] == j);
    }
}

/// An index with a new key at the end covers the keys with that key at the
/// end.
pub proof fn lemma_index_push(index: Map<u64, usize>, keys: Seq<u64>, k: u64)
    requires
        is_index(index, keys),
        !index.contains_key(k),
        keys.len() <= usize::MAX,
    ensures
        is_index(index.insert(k, keys.len() as usize), keys.push(k)),
{
    let after = index.insert(k, keys.len() as usize);
    let longer = keys.push(k);
    assert forall|i: int| 0 <= i < longer.len() implies after.contains_key(#[trigger] longer[i])
        && after[longer[i]] == i by {
        if i < keys.len() {
            assert(index.contains_key(keys[i]));
            assert(keys[i] != k);
        }
    }
    assert forall|x: u64| #[trigger] after.contains_key(x) implies after[x] < longer.len()
        && longer[after[x] as int] == x by {
        if x != k {
            assert(index.contains_key(x));
        }
    }
}

/// Whether no two items of `s` have the same key.
pub open spec fn distinct_by<T, K>(s: Seq<T>, key: spec_fn(T) -> K) -> bool {
    forall|i: int, j: int| 0 <= i < j < s.len() ==> key(s[i]) != key(s[j])
}

/// The first match is a match, and nothing before it is one.
pub proof fn lemma_first_match<T>(s: Seq<T>, p: spec_fn(T) -> bool)
    ensures
        0 <= first_match(s, p) <= s.len(),
        has_match(s, p) ==> p(s[first_match(s, p)]),
        forall|j: int| 0 <= j < first_match(s, p) ==> !p(#[trigger] s[j]),
    decreases s.len(),
{
    if s.len() > 0 && !p(s[0]) {
        let rest = s.drop_first();
        lemma_first_match(rest, p);
        assert forall|j: int| 0 <= j < first_match(s, p) implies !p(#[trigger] s[j]) by {
            if j > 0 {
                assert(s[j] == rest[j - 1]);
            }
        }
    }
}

/// A place is the first match if it holds a match, or is the end, and
/// nothing before it is a match.
pub proof fn lemma_first_match_is<T>(s: Seq<T>, p: spec_fn(T) -> bool, i: int)
    requires
        0 <= i <= s.len(),
        i < s.len() ==> p(s[i]),
        forall|j: int| 0 <= j < i ==> !p(#[trigger] s[j]),
    ensures
        first_match(s, p) == i,
{
    lemma_first_match(s, p);
    let f = first_match(s, p);
    if f < i {
        assert(!p(s[f]));
    }
}

/// To put in an item under a key of its own keeps the keys distinct.
pub proof fn lemma_upsert_keeps_distinct<T, K>(
    s: Seq<T>,
    key: spec_fn(T) -> K,
    p: spec_fn(T) -> bool,
    item: T,
)
    requires
        distinct_by(s, key),
        forall|t: T| #[trigger] p(t) == (key(t) == key(item)),
    ensures
        distinct_by(upsert(s, p, item), key),
{
    let k = key(item);
    lemma_first_match(s, p);
    let f = first_match(s, p);
    let after = upsert(s, p, item);
    assert forall|i: int, j: int| 0 <= i < j < after.len() implies key(after[i]) != key(
        after[j],
    ) by {
        if has_match(s, p) {
            if i == f {
                assert(key(s[f]) == k);
                assert(key(s[i]) != key(s[j]));
            } else if j == f {
                assert(key(s[f]) == k);
                assert(key(s[i]) != key(s[j]));
            } else {
                assert(key(s[i]) != key(s[j]));
            }
        } else {
            if j == s.len() {
                assert(!p(s[i]));
            } else {
                assert(key(s[i]) != key(s[j]));
            }
        }
    }
}

} // verus!
