//! Stable sorting by keys ordered by a strict weak order.
use vstd::prelude::*;

use crate::order::{
    chars_lt, lemma_chars_lt_asymmetric, lemma_chars_lt_irreflexive, lemma_chars_lt_total,
    lemma_chars_lt_transitive,
};

verus! {

/// A key type with a strict weak order: `precedes(a, b)` reads "a sorts before b".
pub trait SortKey: Sized {
    spec fn precedes(a: &Self, b: &Self) -> bool;

    proof fn lemma_precedes_asymmetric(a: &Self, b: &Self)
        requires
            Self::precedes(a, b),
        ensures
            !Self::precedes(b, a),
    ;

    proof fn lemma_precedes_transitive(a: &Self, b: &Self, c: &Self)
        requires
            Self::precedes(a, b),
            Self::precedes(b, c),
        ensures
            Self::precedes(a, c),
    ;

    /// Anything lies after the smaller or before the larger of two ordered keys.
    proof fn lemma_precedes_split(a: &Self, b: &Self, c: &Self)
        requires
            Self::precedes(a, b),
        ensures
            Self::precedes(a, c) || Self::precedes(c, b),
    ;

    fn sorts_before(&self, other: &Self) -> (r: bool)
        ensures
            r == Self::precedes(self, other),
    ;
}

/// `order` lists each index of `keys` exactly once.
pub open spec fn is_index_permutation(order: Seq<usize>, n: nat) -> bool {
    &&& order.len() == n
    &&& forall|i: int| 0 <= i < order.len() ==> #[trigger] order[i] < n
    &&& forall|i: int, j: int| 0 <= i < j < order.len() ==> #[trigger] order[i] != #[trigger] order[j]
}

/// `order` lists indices of `keys` in key order, ties in index order (a stable sort).
pub open spec fn stably_sorted<K: SortKey>(keys: Seq<K>, order: Seq<usize>) -> bool {
    forall|i: int, j: int|
        0 <= i < j < order.len() ==> !K::precedes(&keys[#[trigger] order[j] as int], &keys[#[trigger] order[i] as int])
            && (!K::precedes(&keys[order[i] as int], &keys[order[j] as int]) ==> order[i] < order[j])
}

/// The indices of `keys` in the order a stable sort by key puts them.
pub fn stable_sort_indices<K: SortKey>(keys: &[K]) -> (r: Vec<usize>)
    ensures
        is_index_permutation(r@, keys@.len()),
        stably_sorted(keys@, r@),
{
    let mut order: Vec<usize> = Vec::new();
    let n = keys.len();
    let mut k: usize = 0;
    while k < n
        invariant
            n == keys@.len(),
            k <= n,
            is_index_permutation(order@, k as nat),
            stably_sorted(keys@, order@),
        decreases n - k,
    {
        let mut p: usize = 0;
        while p < order.len() && !keys[k].sorts_before(&keys[order[p]])
            invariant
                n == keys@.len(),
                k < n,
                is_index_permutation(order@, k as nat),
                p <= order@.len(),
                forall|q: int| 0 <= q < p ==> !K::precedes(&keys@[k as int], &keys@[#[trigger] order@[q] as int]),
            decreases order@.len() - p,
        {
            p = p + 1;
        }
        let ghost before = order@;
        order.insert(p, k);
        proof {
            let after = order@;
            assert(after =~= before.insert(p as int, k));
            assert forall|i: int| 0 <= i < after.len() implies #[trigger] after[i] < k + 1 by {
                if i < p {
                    assert(after[i] == before[i]);
                } else if i > p {
                    assert(after[i] == before[i - 1]);
                }
            }
            assert forall|i: int, j: int| 0 <= i < j < after.len() implies #[trigger] after[i]
                != #[trigger] after[j] by {
                if j < p {
                    assert(after[i] == before[i] && after[j] == before[j]);
                } else if i > p {
                    assert(after[i] == before[i - 1] && after[j] == before[j - 1]);
                } else if i == p {
                    assert(after[j] == before[j - 1]);
                } else if j == p {
                    assert(after[i] == before[i]);
                } else {
                    assert(after[i] == before[i] && after[j] == before[j - 1]);
                }
            }
            assert forall|i: int, j: int| 0 <= i < j < after.len() implies !K::precedes(
                &keys@[#[trigger] after[j] as int],
                &keys@[#[trigger] after[i] as int],
            ) && (!K::precedes(&keys@[after[i] as int], &keys@[after[j] as int]) ==> after[i]
                < after[j]) by {
                let kk = &keys@[k as int];
                if i == p {
                    let kp = &keys@[before[p as int] as int];
                    assert(K::precedes(kk, kp));
                    assert(after[i] == k);
                    assert(after[j] == before[j - 1]);
                    let kj = &keys@[before[j - 1] as int];
                    if j - 1 > p {
                        assert(!K::precedes(kj, kp));
                        K::lemma_precedes_split(kk, kp, kj);
                    }
                    K::lemma_precedes_asymmetric(kk, kj);
                } else if j == p {
                    assert(after[i] == before[i]);
                    assert(after[j] == k);
                    assert(!K::precedes(kk, &keys@[before[i] as int]));
                } else if j < p {
                    assert(after[i] == before[i] && after[j] == before[j]);
                } else if i > p {
                    assert(after[i] == before[i - 1] && after[j] == before[j - 1]);
                } else {
                    assert(after[i] == before[i] && after[j] == before[j - 1]);
                }
            }
        }
        k = k + 1;
    }
    order
}


/// The items of `s` listed in `order`.
pub open spec fn permuted<A>(s: Seq<A>, order: Seq<usize>) -> Seq<A> {
    Seq::new(order.len(), |k: int| s[order[k] as int])
}

/// Listing a sequence in the order of an index permutation keeps its multiset of items.
pub proof fn lemma_permuted_multiset<A>(s: Seq<A>, order: Seq<usize>)
    requires
        is_index_permutation(order, s.len()),
    ensures
        permuted(s, order).to_multiset() == s.to_multiset(),
    decreases s.len(),
{
    broadcast use vstd::multiset::group_multiset_axioms;

    let p = permuted(s, order);
    if s.len() == 0 {
        assert(p =~= s);
    } else {
        let m = order[0] as int;
        let rest = s.remove(m);
        let tail = Seq::new(
            (order.len() - 1) as nat,
            |k: int| if order[k + 1] > m { (order[k + 1] - 1) as usize } else { order[k + 1] },
        );
        assert forall|k: int| 0 <= k < tail.len() implies #[trigger] tail[k] < rest.len() by {
            assert(order[0] != order[k + 1]);
            assert(order[k + 1] < s.len());
        }
        assert forall|i: int, j: int| 0 <= i < j < tail.len() implies #[trigger] tail[i] != #[trigger] tail[j] by {
            assert(order[i + 1] != order[j + 1]);
            assert(order[0] != order[i + 1]);
            assert(order[0] != order[j + 1]);
        }
        lemma_permuted_multiset(rest, tail);
        assert(permuted(rest, tail) =~= p.drop_first()) by {
            assert forall|k: int| 0 <= k < tail.len() implies permuted(rest, tail)[k] == p.drop_first()[k] by {
                assert(order[0] != order[k + 1]);
                assert(order[k + 1] < s.len());
            }
        }
        vstd::seq_lib::to_multiset_remove(s, m);
        vstd::seq_lib::to_multiset_remove(p, 0);
        assert(p.remove(0) =~= p.drop_first());
        let x = s[m];
        assert(p[0] == x);
        vstd::seq_lib::to_multiset_contains(p, x);
        vstd::seq_lib::to_multiset_contains(s, x);
        assert(p.contains(x));
        assert(s.contains(x));
        assert(p.to_multiset() =~= s.to_multiset()) by {
            assert forall|y: A| #[trigger] p.to_multiset().count(y) == s.to_multiset().count(y) by {
                assert(p.to_multiset().remove(x).count(y) == s.to_multiset().remove(x).count(y));
            }
        }
    }
}

/// Two stable sorts of the same items, handed over in two different orders, list the same
/// keys, where `key` maps items to a totally ordered view that agrees with `precedes`.
pub proof fn lemma_stable_orders_agree<K: SortKey, V>(
    first: Seq<K>,
    relabel: Seq<usize>,
    first_order: Seq<usize>,
    second_order: Seq<usize>,
    key: spec_fn(K) -> V,
    leq: spec_fn(V, V) -> bool,
)
    requires
        vstd::relations::total_ordering(leq),
        forall|a: K, b: K| !K::precedes(&b, &a) ==> #[trigger] leq(key(a), key(b)),
        is_index_permutation(relabel, first.len()),
        is_index_permutation(first_order, first.len()),
        is_index_permutation(second_order, first.len()),
        stably_sorted(first, first_order),
        stably_sorted(permuted(first, relabel), second_order),
    ensures
        permuted(first, first_order).map_values(key) == permuted(
            permuted(first, relabel),
            second_order,
        ).map_values(key),
{
    let second = permuted(first, relabel);
    let viewed = first.map_values(key);
    let k1 = permuted(first, first_order).map_values(key);
    let k2 = permuted(second, second_order).map_values(key);
    assert forall|i: int, j: int| 0 <= i < j < k1.len() implies #[trigger] leq(k1[i], k1[j]) by {
        assert(!K::precedes(&first[first_order[j] as int], &first[first_order[i] as int]));
    }
    assert forall|i: int, j: int| 0 <= i < j < k2.len() implies #[trigger] leq(k2[i], k2[j]) by {
        assert(!K::precedes(&second[second_order[j] as int], &second[second_order[i] as int]));
    }
    assert(k1 =~= permuted(viewed, first_order));
    assert(k2 =~= permuted(second.map_values(key), second_order));
    assert(second.map_values(key) =~= permuted(viewed, relabel));
    lemma_permuted_multiset(viewed, first_order);
    lemma_permuted_multiset(viewed, relabel);
    lemma_permuted_multiset(second.map_values(key), second_order);
    vstd::seq_lib::lemma_sorted_unique(k1, k2, leq);
}

/// Lexicographic order of equally long lists of strings, each compared as `chars_lt`.
pub open spec fn strings_lt(a: Seq<Seq<char>>, b: Seq<Seq<char>>) -> bool
    decreases a.len(),
{
    if a.len() == 0 || b.len() == 0 {
        false
    } else if a[0] != b[0] {
        chars_lt(a[0], b[0])
    } else {
        strings_lt(a.drop_first(), b.drop_first())
    }
}

proof fn lemma_strings_lt_asymmetric(a: Seq<Seq<char>>, b: Seq<Seq<char>>)
    requires
        strings_lt(a, b),
    ensures
        !strings_lt(b, a),
    decreases a.len(),
{
    if a[0] != b[0] {
        lemma_chars_lt_asymmetric(a[0], b[0]);
    } else {
        lemma_strings_lt_asymmetric(a.drop_first(), b.drop_first());
    }
}

proof fn lemma_strings_lt_transitive(a: Seq<Seq<char>>, b: Seq<Seq<char>>, c: Seq<Seq<char>>)
    requires
        strings_lt(a, b),
        strings_lt(b, c),
    ensures
        strings_lt(a, c),
    decreases a.len(),
{
    if a[0] != b[0] && b[0] != c[0] {
        lemma_chars_lt_transitive(a[0], b[0], c[0]);
        if a[0] == c[0] {
            lemma_chars_lt_asymmetric(a[0], b[0]);
        }
    } else if a[0] == b[0] && b[0] == c[0] {
        lemma_strings_lt_transitive(a.drop_first(), b.drop_first(), c.drop_first());
    }
}

proof fn lemma_strings_lt_total(a: Seq<Seq<char>>, b: Seq<Seq<char>>)
    requires
        a.len() == b.len(),
    ensures
        a == b || strings_lt(a, b) || strings_lt(b, a),
    decreases a.len(),
{
    if a.len() == 0 {
        assert(a =~= b);
    } else if a[0] != b[0] {
        lemma_chars_lt_total(a[0], b[0]);
    } else {
        lemma_strings_lt_total(a.drop_first(), b.drop_first());
        if a.drop_first() == b.drop_first() {
            assert forall|k: int| 0 <= k < a.len() implies a[k] == b[k] by {
                if k > 0 {
                    assert(a[k] == a.drop_first()[k - 1]);
                    assert(b[k] == b.drop_first()[k - 1]);
                }
            }
            assert(a =~= b);
        }
    }
}

proof fn lemma_strings_lt_split(a: Seq<Seq<char>>, b: Seq<Seq<char>>, c: Seq<Seq<char>>)
    requires
        a.len() == c.len(),
        strings_lt(a, b),
    ensures
        strings_lt(a, c) || strings_lt(c, b),
{
    lemma_strings_lt_total(a, c);
    if strings_lt(c, a) {
        lemma_strings_lt_transitive(c, a, b);
    }
}

/// The key stories are sorted by: id, then item path, source path and title.
pub open spec fn story_key(d: crate::manifest::StoryDefinition) -> Seq<Seq<char>> {
    seq![d.id@, d.item_path@, d.source_path@, d.title@]
}

impl SortKey for crate::manifest::StoryDefinition {
    open spec fn precedes(a: &Self, b: &Self) -> bool {
        strings_lt(story_key(*a), story_key(*b))
    }

    proof fn lemma_precedes_asymmetric(a: &Self, b: &Self) {
        lemma_strings_lt_asymmetric(story_key(*a), story_key(*b));
    }

    proof fn lemma_precedes_transitive(a: &Self, b: &Self, c: &Self) {
        lemma_strings_lt_transitive(story_key(*a), story_key(*b), story_key(*c));
    }

    proof fn lemma_precedes_split(a: &Self, b: &Self, c: &Self) {
        lemma_strings_lt_split(story_key(*a), story_key(*b), story_key(*c));
    }

    fn sorts_before(&self, other: &Self) -> (r: bool) {
        let ghost a = story_key(*self);
        let ghost b = story_key(*other);
        if !crate::text::str_eq(self.id.as_str(), other.id.as_str()) {
            return crate::order::str_lt(self.id.as_str(), other.id.as_str());
        }
        assert(a.drop_first() =~= seq![self.item_path@, self.source_path@, self.title@]);
        assert(b.drop_first() =~= seq![other.item_path@, other.source_path@, other.title@]);
        assert(strings_lt(a, b) == strings_lt(a.drop_first(), b.drop_first()));
        if !crate::text::str_eq(self.item_path.as_str(), other.item_path.as_str()) {
            return crate::order::str_lt(self.item_path.as_str(), other.item_path.as_str());
        }
        assert(a.drop_first().drop_first() =~= seq![self.source_path@, self.title@]);
        assert(b.drop_first().drop_first() =~= seq![other.source_path@, other.title@]);
        assert(strings_lt(a.drop_first(), b.drop_first()) == strings_lt(
            a.drop_first().drop_first(),
            b.drop_first().drop_first(),
        ));
        if !crate::text::str_eq(self.source_path.as_str(), other.source_path.as_str()) {
            return crate::order::str_lt(self.source_path.as_str(), other.source_path.as_str());
        }
        assert(a.drop_first().drop_first().drop_first() =~= seq![self.title@]);
        assert(b.drop_first().drop_first().drop_first() =~= seq![other.title@]);
        assert(strings_lt(a.drop_first().drop_first(), b.drop_first().drop_first()) == strings_lt(
            a.drop_first().drop_first().drop_first(),
            b.drop_first().drop_first().drop_first(),
        ));
        if !crate::text::str_eq(self.title.as_str(), other.title.as_str()) {
            return crate::order::str_lt(self.title.as_str(), other.title.as_str());
        }
        assert(strings_lt(a.drop_first().drop_first().drop_first(), b.drop_first().drop_first().drop_first()) == strings_lt(
            a.drop_first().drop_first().drop_first().drop_first(),
            b.drop_first().drop_first().drop_first().drop_first(),
        ));
        false
    }
}

/// A story's sort key as a tuple: id, item path, source path, title.
pub open spec fn story_key_fields(d: crate::manifest::StoryDefinition) -> (
    Seq<char>,
    Seq<char>,
    Seq<char>,
    Seq<char>,
) {
    (d.id@, d.item_path@, d.source_path@, d.title@)
}

/// The fields of a story key as a list.
pub open spec fn key_fields_list(t: (Seq<char>, Seq<char>, Seq<char>, Seq<char>)) -> Seq<Seq<char>> {
    seq![t.0, t.1, t.2, t.3]
}

/// The total order on story keys: equal, or lexicographically smaller.
pub open spec fn story_key_leq(
    a: (Seq<char>, Seq<char>, Seq<char>, Seq<char>),
    b: (Seq<char>, Seq<char>, Seq<char>, Seq<char>),
) -> bool {
    a == b || strings_lt(key_fields_list(a), key_fields_list(b))
}

/// `story_key_leq` is a total order, and stories that do not sort after each other have keys
/// in that order.
pub proof fn lemma_story_key_leq_total()
    ensures
        vstd::relations::total_ordering(
            |a: (Seq<char>, Seq<char>, Seq<char>, Seq<char>), b: (Seq<char>, Seq<char>, Seq<char>, Seq<char>)|
                story_key_leq(a, b),
        ),
        forall|a: crate::manifest::StoryDefinition, b: crate::manifest::StoryDefinition|
            !<crate::manifest::StoryDefinition as SortKey>::precedes(&b, &a) ==> #[trigger] story_key_leq(
                story_key_fields(a),
                story_key_fields(b),
            ),
{
    assert forall|a: (Seq<char>, Seq<char>, Seq<char>, Seq<char>), b: (Seq<char>, Seq<char>, Seq<char>, Seq<char>)|
        key_fields_list(a) == key_fields_list(b) implies a == b by {
        assert(key_fields_list(a)[0] == a.0 && key_fields_list(b)[0] == b.0);
        assert(key_fields_list(a)[1] == a.1 && key_fields_list(b)[1] == b.1);
        assert(key_fields_list(a)[2] == a.2 && key_fields_list(b)[2] == b.2);
        assert(key_fields_list(a)[3] == a.3 && key_fields_list(b)[3] == b.3);
    }
    assert forall|a: (Seq<char>, Seq<char>, Seq<char>, Seq<char>), b: (Seq<char>, Seq<char>, Seq<char>, Seq<char>)|
        #[trigger] story_key_leq(a, b) && #[trigger] story_key_leq(b, a) implies a == b by {
        if a != b {
            lemma_strings_lt_asymmetric(key_fields_list(a), key_fields_list(b));
        }
    }
    assert forall|a: (Seq<char>, Seq<char>, Seq<char>, Seq<char>), b: (Seq<char>, Seq<char>, Seq<char>, Seq<char>), c: (Seq<char>, Seq<char>, Seq<char>, Seq<char>)|
        #[trigger] story_key_leq(a, b) && #[trigger] story_key_leq(b, c) implies story_key_leq(a, c) by {
        if a != b && b != c {
            lemma_strings_lt_transitive(key_fields_list(a), key_fields_list(b), key_fields_list(c));
        }
    }
    assert forall|a: (Seq<char>, Seq<char>, Seq<char>, Seq<char>), b: (Seq<char>, Seq<char>, Seq<char>, Seq<char>)|
        #[trigger] story_key_leq(a, b) || #[trigger] story_key_leq(b, a) by {
        lemma_strings_lt_total(key_fields_list(a), key_fields_list(b));
    }
    assert forall|a: crate::manifest::StoryDefinition, b: crate::manifest::StoryDefinition|
        !<crate::manifest::StoryDefinition as SortKey>::precedes(&b, &a) implies #[trigger] story_key_leq(
            story_key_fields(a),
            story_key_fields(b),
        ) by {
        assert(story_key(a) == key_fields_list(story_key_fields(a)));
        assert(story_key(b) == key_fields_list(story_key_fields(b)));
        lemma_strings_lt_total(story_key(a), story_key(b));
    }
}

impl SortKey for i32 {
    open spec fn precedes(a: &Self, b: &Self) -> bool {
        *a < *b
    }

    proof fn lemma_precedes_asymmetric(a: &Self, b: &Self) {
    }

    proof fn lemma_precedes_transitive(a: &Self, b: &Self, c: &Self) {
    }

    proof fn lemma_precedes_split(a: &Self, b: &Self, c: &Self) {
    }

    fn sorts_before(&self, other: &Self) -> (r: bool) {
        *self < *other
    }
}

impl SortKey for String {
    open spec fn precedes(a: &Self, b: &Self) -> bool {
        chars_lt(a@, b@)
    }

    proof fn lemma_precedes_asymmetric(a: &Self, b: &Self) {
        lemma_chars_lt_asymmetric(a@, b@);
    }

    proof fn lemma_precedes_transitive(a: &Self, b: &Self, c: &Self) {
        lemma_chars_lt_transitive(a@, b@, c@);
    }

    proof fn lemma_precedes_split(a: &Self, b: &Self, c: &Self) {
        lemma_chars_lt_total(a@, c@);
        if chars_lt(c@, a@) {
            lemma_chars_lt_transitive(c@, a@, b@);
        }
    }

    fn sorts_before(&self, other: &Self) -> (r: bool) {
        crate::order::str_lt(self.as_str(), other.as_str())
    }
}

/// The key providers are sorted by: order, then item path.
#[derive(Debug, Clone, PartialEq, Eq)]
pub struct ProviderKey {
    pub order: i32,
    pub item_path: String,
}

impl SortKey for ProviderKey {
    open spec fn precedes(a: &Self, b: &Self) -> bool {
        a.order < b.order || (a.order == b.order && chars_lt(a.item_path@, b.item_path@))
    }

    proof fn lemma_precedes_asymmetric(a: &Self, b: &Self) {
        if a.order == b.order {
            lemma_chars_lt_asymmetric(a.item_path@, b.item_path@);
        }
    }

    proof fn lemma_precedes_transitive(a: &Self, b: &Self, c: &Self) {
        if a.order == b.order && b.order == c.order {
            lemma_chars_lt_transitive(a.item_path@, b.item_path@, c.item_path@);
        }
    }

    proof fn lemma_precedes_split(a: &Self, b: &Self, c: &Self) {
        if a.order == c.order && c.order == b.order {
            lemma_chars_lt_total(a.item_path@, c.item_path@);
            if chars_lt(c.item_path@, a.item_path@) {
                lemma_chars_lt_transitive(c.item_path@, a.item_path@, b.item_path@);
            }
        }
    }

    fn sorts_before(&self, other: &Self) -> (r: bool) {
        self.order < other.order || (self.order == other.order && crate::order::str_lt(
            self.item_path.as_str(),
            other.item_path.as_str(),
        ))
    }
}

/// The total order on provider keys: by order, then item path.
pub open spec fn provider_key_leq(a: (int, Seq<char>), b: (int, Seq<char>)) -> bool {
    a.0 < b.0 || (a.0 == b.0 && (a.1 == b.1 || chars_lt(a.1, b.1)))
}

/// A provider key as plain values.
pub open spec fn provider_key_fields(k: ProviderKey) -> (int, Seq<char>) {
    (k.order as int, k.item_path@)
}

/// `provider_key_leq` is a total order, and keys that do not sort after each other are in
/// that order.
pub proof fn lemma_provider_key_leq_total()
    ensures
        vstd::relations::total_ordering(|a: (int, Seq<char>), b: (int, Seq<char>)| provider_key_leq(a, b)),
        forall|a: ProviderKey, b: ProviderKey|
            !ProviderKey::precedes(&b, &a) ==> #[trigger] provider_key_leq(
                provider_key_fields(a),
                provider_key_fields(b),
            ),
{
    assert forall|a: (int, Seq<char>), b: (int, Seq<char>)|
        #[trigger] provider_key_leq(a, b) && #[trigger] provider_key_leq(b, a) implies a == b by {
        if a.0 == b.0 && a.1 != b.1 {
            lemma_chars_lt_asymmetric(a.1, b.1);
        }
    }
    assert forall|a: (int, Seq<char>), b: (int, Seq<char>), c: (int, Seq<char>)|
        #[trigger] provider_key_leq(a, b) && #[trigger] provider_key_leq(b, c) implies provider_key_leq(a, c) by {
        if a.0 == b.0 && b.0 == c.0 && a.1 != b.1 && b.1 != c.1 {
            lemma_chars_lt_transitive(a.1, b.1, c.1);
        }
    }
    assert forall|a: (int, Seq<char>), b: (int, Seq<char>)|
        #[trigger] provider_key_leq(a, b) || #[trigger] provider_key_leq(b, a) by {
        lemma_chars_lt_total(a.1, b.1);
    }
    assert forall|a: ProviderKey, b: ProviderKey|
        !ProviderKey::precedes(&b, &a) implies #[trigger] provider_key_leq(
            provider_key_fields(a),
            provider_key_fields(b),
        ) by {
        lemma_chars_lt_total(a.item_path@, b.item_path@);
    }
}

impl SortKey for crate::runtime::ProviderDefinition {
    open spec fn precedes(a: &Self, b: &Self) -> bool {
        a.order < b.order || (a.order == b.order && chars_lt(a.item_path@, b.item_path@))
    }

    proof fn lemma_precedes_asymmetric(a: &Self, b: &Self) {
        if a.order == b.order {
            lemma_chars_lt_asymmetric(a.item_path@, b.item_path@);
        }
    }

    proof fn lemma_precedes_transitive(a: &Self, b: &Self, c: &Self) {
        if a.order == b.order && b.order == c.order {
            lemma_chars_lt_transitive(a.item_path@, b.item_path@, c.item_path@);
        }
    }

    proof fn lemma_precedes_split(a: &Self, b: &Self, c: &Self) {
        if a.order == c.order && c.order == b.order {
            lemma_chars_lt_total(a.item_path@, c.item_path@);
            if chars_lt(c.item_path@, a.item_path@) {
                lemma_chars_lt_transitive(c.item_path@, a.item_path@, b.item_path@);
            }
        }
    }

    fn sorts_before(&self, other: &Self) -> (r: bool) {
        self.order < other.order || (self.order == other.order && crate::order::str_lt(
            self.item_path.as_str(),
            other.item_path.as_str(),
        ))
    }
}

} // verus!
