//! Ranking: the stable order of a list of items by a key.
//!
//! A key is a fraction of two counters. To rank is to say in which order
//! the items' places come when the keys ascend and items with equal keys
//! keep the order they had.

use vstd::prelude::*;

verus! {

/// The fraction `num / den`. Its denominator is never zero.
#[derive(Debug, Clone, Copy)]
pub struct RankKey {
    pub num: u64,
    pub den: u64,
}

impl RankKey {
    pub open spec fn valid(self) -> bool {
        self.den > 0
    }

    /// Whether this fraction is smaller than `other`.
    pub open spec fn below(self, other: RankKey) -> bool {
        self.num * other.den < other.num * self.den
    }

    /// Whether the two fractions have one value.
    pub open spec fn level(self, other: RankKey) -> bool {
        self.num * other.den == other.num * self.den
    }

    /// A key under which larger values come first.
    pub fn descending(value: u64) -> (key: RankKey)
        ensures
            key == (RankKey { num: (u64::MAX - value) as u64, den: 1 }),
    {
        RankKey { num: u64::MAX - value, den: 1 }
    }

    /// The fraction `part / whole`, and zero where `whole` is zero.
    pub fn ratio(part: u64, whole: u64) -> (key: RankKey)
        ensures
            key.valid(),
            key == if whole == 0 {
                RankKey { num: 0, den: 1 }
            } else {
                RankKey { num: part, den: whole }
            },
    {
        if whole == 0 {
            RankKey { num: 0, den: 1 }
        } else {
            RankKey { num: part, den: whole }
        }
    }

    fn is_below(&self, other: &RankKey) -> (b: bool)
        ensures
            b == self.below(*other),
    {
        assert(self.num * other.den <= u64::MAX * u64::MAX) by (nonlinear_arith)
            requires
                self.num <= u64::MAX,
                other.den <= u64::MAX,
        ;
        assert(other.num * self.den <= u64::MAX * u64::MAX) by (nonlinear_arith)
            requires
                other.num <= u64::MAX,
                self.den <= u64::MAX,
        ;
        (self.num as u128) * (other.den as u128) < (other.num as u128) * (self.den as u128)
    }
}

/// Whether the item at place `i` comes before the item at place `j`: its key
/// is smaller, or the keys are level and it stood first.
pub open spec fn comes_before(keys: Seq<RankKey>, i: int, j: int) -> bool {
    keys[i].below(keys[j]) || (keys[i].level(keys[j]) && i < j)
}

/// Whether `order` lists the places of `keys`, each once, so that every
/// place comes before all that follow it.
pub open spec fn is_ranking(keys: Seq<RankKey>, order: Seq<usize>) -> bool {
    &&& order.len() == keys.len()
    &&& forall|i: int| 0 <= i < order.len() ==> (#[trigger] order[i]) < keys.len()
    &&& forall|i: int, j: int|
        0 <= i < j < order.len() ==> comes_before(keys, order[i] as int, order[j] as int)
}

/// Fractions that are not below one another are ordered through: if `b` is
/// not below `a` and `c` is not below `b`, then `c` is not below `a`.
pub proof fn lemma_not_below_chains(a: RankKey, b: RankKey, c: RankKey)
    requires
        a.valid(),
        b.valid(),
        c.valid(),
        !b.below(a),
        !c.below(b),
    ensures
        !c.below(a),
{
    let (an, ad) = (a.num as int, a.den as int);
    let (bn, bd) = (b.num as int, b.den as int);
    let (cn, cd) = (c.num as int, c.den as int);
    assert(an * cd <= cn * ad) by (nonlinear_arith)
        requires
            an * bd <= bn * ad,
            bn * cd <= cn * bd,
            ad > 0,
            bd > 0,
            cd > 0,
            an >= 0,
            bn >= 0,
            cn >= 0,
    {
        assert(an * bd * cd <= bn * ad * cd);
        assert(bn * cd * ad <= cn * bd * ad);
        assert(bn * ad * cd == bn * cd * ad);
        assert(bd * (an * cd) == an * bd * cd);
        assert(bd * (cn * ad) == cn * bd * ad);
    }
}

/// A ranking names every place once: no place occurs twice in it.
pub proof fn lemma_ranking_has_no_repeats(keys: Seq<RankKey>, order: Seq<usize>)
    requires
        is_ranking(keys, order),
    ensures
        order.no_duplicates(),
{
    assert forall|i: int, j: int| 0 <= i < order.len() && 0 <= j < order.len() && i != j implies order[i]
        != order[j] by {
        if i < j {
            assert(comes_before(keys, order[i] as int, order[j] as int));
        } else {
            assert(comes_before(keys, order[j] as int, order[i] as int));
        }
    }
}

/// A ranking names every place.
pub proof fn lemma_ranking_names_every_place(keys: Seq<RankKey>, order: Seq<usize>, place: usize)
    requires
        is_ranking(keys, order),
        place < keys.len(),
    ensures
        order.contains(place),
{
    lemma_ranking_has_no_repeats(keys, order);
    let places = order.map_values(|p: usize| p as int);
    assert(places.no_duplicates()) by {
        assert forall|i: int, j: int|
            0 <= i < places.len() && 0 <= j < places.len() && i != j implies places[i]
            != places[j] by {
            assert(order[i] != order[j]);
        }
    }
    places.unique_seq_to_set();
    let all = vstd::set_lib::set_int_range(0, keys.len() as int);
    vstd::set_lib::lemma_int_range(0, keys.len() as int);
    assert(places.to_set().subset_of(all)) by {
        assert forall|x: int| places.to_set().contains(x) implies all.contains(x) by {
            let k = choose|k: int| 0 <= k < places.len() && places[k] == x;
            assert(order[k] < keys.len());
        }
    }
    vstd::set_lib::lemma_subset_equality(places.to_set(), all);
    assert(all.contains(place as int));
    assert(places.to_set().contains(place as int));
    assert(places.contains(place as int));
    let k = choose|k: int| 0 <= k < places.len() && places[k] == place as int;
    assert(order[k] == place);
}

/// Of two places with valid keys, at most one comes before the other.
proof fn lemma_one_comes_first(keys: Seq<RankKey>, i: int, j: int)
    requires
        comes_before(keys, i, j),
    ensures
        !comes_before(keys, j, i),
{
}

proof fn lemma_rankings_agree_upto(keys: Seq<RankKey>, a: Seq<usize>, b: Seq<usize>, upto: int)
    requires
        is_ranking(keys, a),
        is_ranking(keys, b),
        0 <= upto <= keys.len(),
    ensures
        forall|k: int| 0 <= k < upto ==> a[k] == b[k],
    decreases upto,
{
    if upto > 0 {
        lemma_rankings_agree_upto(keys, a, b, upto - 1);
        let i = upto - 1;
        let x = a[i];
        let y = b[i];
        if x != y {
            lemma_ranking_has_no_repeats(keys, a);
            lemma_ranking_has_no_repeats(keys, b);
            lemma_ranking_names_every_place(keys, b, x);
            lemma_ranking_names_every_place(keys, a, y);
            let j = choose|j: int| 0 <= j < b.len() && b[j] == x;
            let k = choose|k: int| 0 <= k < a.len() && a[k] == y;
            if j < i {
                assert(a[j] == b[j]);
                assert(a[j] != a[i]);
            }
            if k < i {
                assert(b[k] == a[k]);
                assert(b[k] != b[i]);
            }
            assert(comes_before(keys, b[i] as int, b[j] as int));
            assert(comes_before(keys, a[i] as int, a[k] as int));
            lemma_one_comes_first(keys, x as int, y as int);
        }
    }
}

/// There is one ranking: two rankings of the same keys are the same.
pub proof fn lemma_ranking_is_unique(keys: Seq<RankKey>, a: Seq<usize>, b: Seq<usize>)
    requires
        is_ranking(keys, a),
        is_ranking(keys, b),
    ensures
        a == b,
{
    lemma_rankings_agree_upto(keys, a, b, keys.len() as int);
    assert(a =~= b);
}

/// Ranks the places of `keys` by ascending key. Places with level keys stay
/// in their order.
pub fn rank(keys: &Vec<RankKey>) -> (order: Vec<usize>)
    requires
        forall|i: int| 0 <= i < keys@.len() ==> (#[trigger] keys@[i]).valid(),
    ensures
        is_ranking(keys@, order@),
{
    let n: usize = keys.len();
    let mut order: Vec<usize> = Vec::new();
    for k in 0..n
        invariant
            n == keys@.len(),
            forall|i: int| 0 <= i < keys@.len() ==> (#[trigger] keys@[i]).valid(),
            order@.len() == k,
            forall|i: int| 0 <= i < order@.len() ==> (#[trigger] order@[i]) < k,
            forall|i: int, j: int|
                0 <= i < j < order@.len() ==> comes_before(
                    keys@,
                    order@[i] as int,
                    order@[j] as int,
                ),
    {
        let mut p: usize = order.len();
        while p > 0 && keys[k].is_below(&keys[order[p - 1]])
            invariant
                n == keys@.len(),
                k < n,
                p <= order@.len(),
                order@.len() == k,
                forall|i: int| 0 <= i < order@.len() ==> (#[trigger] order@[i]) < k,
                forall|j: int|
                    p <= j < order@.len() ==> keys@[k as int].below(
                        #[trigger] keys@[order@[j] as int],
                    ),
            decreases p,
        {
            p = p - 1;
        }
        let ghost before = order@;
        order.insert(p, k);
        proof {
            let after = order@;
            assert forall|i: int, j: int| 0 <= i < j < after.len() implies comes_before(
                keys@,
                after[i] as int,
                after[j] as int,
            ) by {
                if j < p {
                    assert(after[i] == before[i] && after[j] == before[j]);
                } else if j == p {
                    // before[i] against the new place k
                    assert(after[i] == before[i]);
                    let last = before[p - 1] as int;
                    assert(!keys@[k as int].below(keys@[last]));
                    if i < p - 1 {
                        assert(comes_before(keys@, before[i] as int, last));
                        lemma_not_below_chains(
                            keys@[before[i] as int],
                            keys@[last],
                            keys@[k as int],
                        );
                    }
                    assert(before[i] < k);
                } else if i < p {
                    assert(after[i] == before[i] && after[j] == before[j - 1]);
                } else if i == p {
                    assert(after[j] == before[j - 1]);
                } else {
                    assert(after[i] == before[i - 1] && after[j] == before[j - 1]);
                }
            }
            assert forall|i: int| 0 <= i < after.len() implies (#[trigger] after[i]) < k + 1 by {
                if i < p {
                    assert(after[i] == before[i]);
                } else if i > p {
                    assert(after[i] == before[i - 1]);
                }
            }
        }
    }
    order
}

} // verus!
