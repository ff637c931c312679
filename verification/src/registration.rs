//! The deterministic order of registered stories and providers, and colliding story ids.
use vstd::prelude::*;

use crate::manifest::{strings_view, StoryDefinition};
use crate::runtime::ProviderDefinition;
use crate::scaffold::{definitions_view, providers_view};
use crate::sorting::{
    is_index_permutation, key_fields_list, lemma_provider_key_leq_total, lemma_stable_orders_agree,
    lemma_story_key_leq_total, permuted, provider_key_fields, provider_key_leq, stable_sort_indices,
    stably_sorted, story_key, story_key_fields, story_key_leq, ProviderKey, SortKey,
};
use crate::order::{chars_lt, lemma_chars_lt_asymmetric, lemma_chars_lt_total, strictly_sorted};
use crate::text::str_eq;

verus! {

/// The order stories are listed in: by id, then item path, source path and title; stories
/// with equal keys keep their registration order.
pub fn story_order(stories: &[StoryDefinition]) -> (r: Vec<usize>)
    ensures
        is_index_permutation(r@, stories@.len()),
        stably_sorted(stories@, r@),
{
    stable_sort_indices(stories)
}

/// The order providers wrap in, outermost first: by order, then item path.
pub fn provider_order(keys: &[ProviderKey]) -> (r: Vec<usize>)
    ensures
        is_index_permutation(r@, keys@.len()),
        stably_sorted(keys@, r@),
{
    stable_sort_indices(keys)
}

/// The story order does not depend on the order stories were registered in: when `second`
/// lists the stories of `first` in another order (`relabel`), sorting either lists the same
/// sort keys in the same order.
pub proof fn lemma_story_order_independent_of_registration(
    first: Seq<StoryDefinition>,
    relabel: Seq<usize>,
    first_order: Seq<usize>,
    second_order: Seq<usize>,
)
    requires
        is_index_permutation(relabel, first.len()),
        is_index_permutation(first_order, first.len()),
        stably_sorted(first, first_order),
        is_index_permutation(second_order, first.len()),
        stably_sorted(permuted(first, relabel), second_order),
    ensures
        permuted(first, first_order).map_values(|d: StoryDefinition| story_key(d)) == permuted(
            permuted(first, relabel),
            second_order,
        ).map_values(|d: StoryDefinition| story_key(d)),
{
    lemma_story_key_leq_total();
    let key = |d: StoryDefinition| story_key_fields(d);
    let leq = |a: (Seq<char>, Seq<char>, Seq<char>, Seq<char>), b: (Seq<char>, Seq<char>, Seq<char>, Seq<char>)|
        story_key_leq(a, b);
    assert forall|a: StoryDefinition, b: StoryDefinition| !StoryDefinition::precedes(&b, &a) implies #[trigger] leq(
        key(a),
        key(b),
    ) by {
        assert(story_key_leq(story_key_fields(a), story_key_fields(b)));
    }
    lemma_stable_orders_agree(first, relabel, first_order, second_order, key, leq);
    let one = permuted(first, first_order);
    let two = permuted(permuted(first, relabel), second_order);
    assert(one.map_values(key) == two.map_values(key));
    assert(one.map_values(|d: StoryDefinition| story_key(d)) =~= two.map_values(|d: StoryDefinition| story_key(d))) by {
        assert forall|k: int| 0 <= k < one.len() implies story_key(one[k]) == story_key(two[k]) by {
            assert(one.map_values(key)[k] == two.map_values(key)[k]);
            assert(story_key(one[k]) == key_fields_list(story_key_fields(one[k])));
            assert(story_key(two[k]) == key_fields_list(story_key_fields(two[k])));
        }
    }
}

/// The provider order does not depend on the order providers were registered in: when
/// `second` lists the providers of `first` in another order (`relabel`), sorting either gives
/// the same (order, item path) pairs in the same order.
pub proof fn lemma_provider_order_independent_of_registration(
    first: Seq<ProviderKey>,
    relabel: Seq<usize>,
    first_order: Seq<usize>,
    second_order: Seq<usize>,
)
    requires
        is_index_permutation(relabel, first.len()),
        is_index_permutation(first_order, first.len()),
        stably_sorted(first, first_order),
        is_index_permutation(second_order, first.len()),
        stably_sorted(permuted(first, relabel), second_order),
    ensures
        permuted(first, first_order).map_values(|k: ProviderKey| provider_key_fields(k)) == permuted(
            permuted(first, relabel),
            second_order,
        ).map_values(|k: ProviderKey| provider_key_fields(k)),
{
    lemma_provider_key_leq_total();
    let key = |k: ProviderKey| provider_key_fields(k);
    let leq = |a: (int, Seq<char>), b: (int, Seq<char>)| provider_key_leq(a, b);
    assert forall|a: ProviderKey, b: ProviderKey| !ProviderKey::precedes(&b, &a) implies #[trigger] leq(key(a), key(b)) by {
        assert(provider_key_leq(provider_key_fields(a), provider_key_fields(b)));
    }
    lemma_stable_orders_agree(first, relabel, first_order, second_order, key, leq);
}

/// The ids of a list of stories, in order.
pub open spec fn story_ids(stories: Seq<StoryDefinition>) -> Seq<Seq<char>> {
    stories.map_values(|d: StoryDefinition| d.id@)
}

/// The ids shared by neighbouring stories of `sorted[..n]`, each run reported once.
pub open spec fn neighbour_duplicates(sorted: Seq<Seq<char>>, n: int) -> Seq<Seq<char>>
    decreases n,
{
    if n <= 1 {
        Seq::empty()
    } else {
        let prev = neighbour_duplicates(sorted, n - 1);
        if sorted[n - 2] == sorted[n - 1] && (prev.len() == 0 || prev.last() != sorted[n - 1]) {
            prev.push(sorted[n - 1])
        } else {
            prev
        }
    }
}

/// The ids of stories in registry order that the next story shares, deduplicated.
pub fn sorted_duplicate_ids(sorted: &[StoryDefinition]) -> (r: Vec<String>)
    ensures
        strings_view(r@) == neighbour_duplicates(
            story_ids(sorted@),
            sorted@.len() as int,
        ),
{
    let ghost ids = story_ids(sorted@);
    let mut out: Vec<String> = Vec::new();
    let mut k: usize = 1;
    proof {
        assert(strings_view(out@) =~= Seq::<Seq<char>>::empty());
    }
    while k < sorted.len()
        invariant
            ids == story_ids(sorted@),
            ids.len() == sorted@.len(),
            1 <= k,
            sorted@.len() > 0 ==> k <= sorted@.len(),
            sorted@.len() == 0 ==> k == 1,
            strings_view(out@) == neighbour_duplicates(ids, k as int),
        decreases sorted@.len() - k,
    {
        let same = str_eq(sorted[k - 1].id.as_str(), sorted[k].id.as_str());
        let fresh = out.len() == 0 || !str_eq(out[out.len() - 1].as_str(), sorted[k].id.as_str());
        proof {
            assert(ids[k - 1] == sorted@[k - 1].id@);
            assert(ids[k as int] == sorted@[k as int].id@);
            if out@.len() > 0 {
                assert(strings_view(out@).last() == out@[out@.len() - 1]@);
            }
        }
        if same && fresh {
            let id = sorted[k].id.clone();
            proof {
                crate::manifest::lemma_strings_view_push(out@, id);
            }
            out.push(id);
        }
        k = k + 1;
    }
    proof {
        if sorted@.len() == 0 {
            assert(neighbour_duplicates(ids, 1) == Seq::<Seq<char>>::empty());
            assert(neighbour_duplicates(ids, 0) == Seq::<Seq<char>>::empty());
        } else {
            assert(k == sorted@.len());
        }
        assert(strings_view(out@) == neighbour_duplicates(ids, sorted@.len() as int));
    }
    out
}

/// Finds the story serving a route id: the first story with that id in registry order, so
/// that a duplicated id still resolves to the same story on every build.
pub fn story_index(stories: &[StoryDefinition], id: &str) -> (r: Option<usize>)
    ensures
        match r {
            Some(i) => i < stories@.len() && stories@[i as int].id@ == id@ && forall|j: int|
                0 <= j < i ==> #[trigger] stories@[j].id@ != id@,
            None => forall|j: int| 0 <= j < stories@.len() ==> #[trigger] stories@[j].id@ != id@,
        },
{
    let mut i: usize = 0;
    while i < stories.len()
        invariant
            i <= stories@.len(),
            forall|j: int| 0 <= j < i ==> #[trigger] stories@[j].id@ != id@,
        decreases stories@.len() - i,
    {
        if str_eq(stories[i].id.as_str(), id) {
            return Some(i);
        }
        i = i + 1;
    }
    None
}

/// Every registered story in registry order, and the ids more than one of them claims.
pub struct RegisteredStories {
    /// All stories, sorted by id, then item path, source path and title.
    pub stories: Vec<StoryDefinition>,
    /// Ids claimed by more than one story, each once, in registry order.
    pub duplicate_ids: Vec<String>,
}

/// `r` is what collecting `stories` gives: the stories stably sorted by their key, and the
/// ids that neighbours in that order share, each once.
pub open spec fn collected(stories: Seq<StoryDefinition>, r: RegisteredStories) -> bool {
    &&& exists|order: Seq<usize>|
        #![trigger stably_sorted(stories, order)]
        is_index_permutation(order, stories.len()) && stably_sorted(stories, order)
            && definitions_view(r.stories@) == order.map_values(|i: usize| stories[i as int]@)
    &&& strings_view(r.duplicate_ids@) == neighbour_duplicates(
        story_ids(r.stories@),
        r.stories@.len() as int,
    )
}

/// Sorts the stories of every registration and collects the ids they collide on; a
/// collision is reported, never a failure.
pub fn collect_stories(stories: &[StoryDefinition]) -> (r: RegisteredStories)
    ensures
        collected(stories@, r),
{
    let order = story_order(stories);
    let mut sorted: Vec<StoryDefinition> = Vec::new();
    let mut k: usize = 0;
    while k < order.len()
        invariant
            is_index_permutation(order@, stories@.len()),
            k <= order@.len(),
            definitions_view(sorted@) == order@.take(k as int).map_values(|i: usize| stories@[i as int]@),
        decreases order@.len() - k,
    {
        let d = stories[order[k]].copy();
        proof {
            assert(order@.take(k + 1).map_values(|i: usize| stories@[i as int]@) =~= order@.take(
                k as int,
            ).map_values(|i: usize| stories@[i as int]@).push(d@));
            assert(definitions_view(sorted@.push(d)) =~= definitions_view(sorted@).push(d@));
        }
        sorted.push(d);
        k = k + 1;
    }
    proof {
        assert(order@.take(order@.len() as int) =~= order@);
    }
    let duplicate_ids = sorted_duplicate_ids(&sorted);
    let r = RegisteredStories { stories: sorted, duplicate_ids };
    assert(stably_sorted(stories@, order@));
    r
}

/// Sorts providers into wrap order, outermost first: by order, then item path; providers
/// with equal keys keep their registration order.
pub fn sort_providers(providers: &[ProviderDefinition]) -> (r: Vec<ProviderDefinition>)
    ensures
        exists|order: Seq<usize>|
            #![trigger stably_sorted(providers@, order)]
            is_index_permutation(order, providers@.len()) && stably_sorted(providers@, order)
                && providers_view(r@) == order.map_values(|i: usize| providers@[i as int]@),
{
    let order = stable_sort_indices(providers);
    let mut sorted: Vec<ProviderDefinition> = Vec::new();
    let mut k: usize = 0;
    while k < order.len()
        invariant
            is_index_permutation(order@, providers@.len()),
            k <= order@.len(),
            providers_view(sorted@) == order@.take(k as int).map_values(|i: usize| providers@[i as int]@),
        decreases order@.len() - k,
    {
        let p = providers[order[k]].copy();
        proof {
            assert(order@.take(k + 1).map_values(|i: usize| providers@[i as int]@) =~= order@.take(
                k as int,
            ).map_values(|i: usize| providers@[i as int]@).push(p@));
            assert(providers_view(sorted@.push(p)) =~= providers_view(sorted@).push(p@));
        }
        sorted.push(p);
        k = k + 1;
    }
    proof {
        assert(order@.take(order@.len() as int) =~= order@);
    }
    sorted
}

/// The provider order does not depend on registration order: sorting the providers of
/// `first`, or the same providers in another order (`relabel`), gives the same (order,
/// item path) pairs in the same order.
pub proof fn lemma_sort_providers_independent_of_registration(
    first: Seq<ProviderDefinition>,
    relabel: Seq<usize>,
    first_order: Seq<usize>,
    second_order: Seq<usize>,
)
    requires
        is_index_permutation(relabel, first.len()),
        is_index_permutation(first_order, first.len()),
        stably_sorted(first, first_order),
        is_index_permutation(second_order, first.len()),
        stably_sorted(permuted(first, relabel), second_order),
    ensures
        permuted(first, first_order).map_values(|p: ProviderDefinition| (p.order as int, p.item_path@))
            == permuted(permuted(first, relabel), second_order).map_values(
            |p: ProviderDefinition| (p.order as int, p.item_path@),
        ),
{
    lemma_provider_key_leq_total();
    let key = |p: ProviderDefinition| (p.order as int, p.item_path@);
    let leq = |a: (int, Seq<char>), b: (int, Seq<char>)| provider_key_leq(a, b);
    assert forall|a: ProviderDefinition, b: ProviderDefinition| !ProviderDefinition::precedes(&b, &a) implies #[trigger] leq(
        key(a),
        key(b),
    ) by {
        crate::order::lemma_chars_lt_total(a.item_path@, b.item_path@);
    }
    lemma_stable_orders_agree(first, relabel, first_order, second_order, key, leq);
}

/// Ids in registry order never go down.
pub open spec fn ids_nondecreasing(ids: Seq<Seq<char>>) -> bool {
    forall|i: int, j: int|
        0 <= i < j < ids.len() ==> #[trigger] ids[i] == #[trigger] ids[j] || chars_lt(ids[i], ids[j])
}

/// `t` occurs at least twice among the first `n` ids.
pub open spec fn repeated_id(ids: Seq<Seq<char>>, n: int, t: Seq<char>) -> bool {
    exists|i: int, j: int| 0 <= i < j < n && #[trigger] ids[i] == t && #[trigger] ids[j] == t
}

/// Sorting stories by their key puts their ids in order.
pub proof fn lemma_sorted_stories_have_sorted_ids(stories: Seq<StoryDefinition>, order: Seq<usize>)
    requires
        is_index_permutation(order, stories.len()),
        stably_sorted(stories, order),
    ensures
        ids_nondecreasing(order.map_values(|i: usize| stories[i as int].id@)),
{
    let ids = order.map_values(|i: usize| stories[i as int].id@);
    assert forall|i: int, j: int| 0 <= i < j < ids.len() implies #[trigger] ids[i] == #[trigger] ids[j]
        || chars_lt(ids[i], ids[j]) by {
        let a = stories[order[i] as int];
        let b = stories[order[j] as int];
        assert(!StoryDefinition::precedes(&b, &a));
        assert(story_key(a)[0] == a.id@ && story_key(b)[0] == b.id@);
        lemma_chars_lt_total(a.id@, b.id@);
    }
}

/// The reported duplicate ids of stories in id order are exactly the ids that occur at
/// least twice, each once, in ascending order.
pub proof fn lemma_duplicate_ids_are_the_repeated_ids(ids: Seq<Seq<char>>, n: int)
    requires
        ids_nondecreasing(ids),
        0 <= n <= ids.len(),
    ensures
        strictly_sorted(neighbour_duplicates(ids, n)),
        forall|t: Seq<char>| neighbour_duplicates(ids, n).contains(t) <==> repeated_id(ids, n, t),
    decreases n,
{
    if n <= 1 {
        assert forall|t: Seq<char>| neighbour_duplicates(ids, n).contains(t) <==> repeated_id(ids, n, t) by {
            if repeated_id(ids, n, t) {
                let (i, j) = choose|i: int, j: int| 0 <= i < j < n && #[trigger] ids[i] == t && #[trigger] ids[j] == t;
            }
        }
        return;
    }
    lemma_duplicate_ids_are_the_repeated_ids(ids, n - 1);
    let prev = neighbour_duplicates(ids, n - 1);
    let a = ids[n - 2];
    let b = ids[n - 1];
    assert(a == b || chars_lt(a, b));
    // Every reported id so far is at most `a`.
    assert forall|k: int| 0 <= k < prev.len() implies #[trigger] prev[k] == a || chars_lt(prev[k], a) by {
        assert(prev.contains(prev[k]));
        assert(repeated_id(ids, n - 1, prev[k]));
        let (i, j) = choose|i: int, j: int| 0 <= i < j < n - 1 && #[trigger] ids[i] == prev[k] && #[trigger] ids[j] == prev[k];
        if j < n - 2 {
            assert(ids[j] == ids[n - 2] || chars_lt(ids[j], ids[n - 2]));
        }
    }
    // A new pair ending at `n - 1` repeats `b`, and only when `a == b`.
    assert forall|t: Seq<char>| repeated_id(ids, n, t) <==> (repeated_id(ids, n - 1, t) || (t == b && a == b)) by {
        if repeated_id(ids, n, t) && !repeated_id(ids, n - 1, t) {
            let (i, j) = choose|i: int, j: int| 0 <= i < j < n && #[trigger] ids[i] == t && #[trigger] ids[j] == t;
            if j < n - 1 {
                assert(repeated_id(ids, n - 1, t));
            }
            assert(j == n - 1 && t == b);
            if i < n - 2 {
                assert(ids[i] == ids[n - 2] || chars_lt(ids[i], ids[n - 2]));
                if a != b {
                    lemma_chars_lt_asymmetric(a, b);
                }
            }
        }
        if t == b && a == b {
            assert(ids[n - 2] == t && ids[n - 1] == t);
        }
    }
    if a == b && (prev.len() == 0 || prev.last() != b) {
        let cur = prev.push(b);
        assert(cur == neighbour_duplicates(ids, n));
        assert(!prev.contains(b)) by {
            if prev.contains(b) {
                let k = choose|k: int| 0 <= k < prev.len() && prev[k] == b;
                let last = prev[prev.len() - 1];
                assert(last == a || chars_lt(last, a));
                if k < prev.len() - 1 {
                    assert(chars_lt(prev[k], last));
                    if last != a {
                        lemma_chars_lt_asymmetric(b, last);
                    }
                }
            }
        }
        assert forall|i: int, j: int| 0 <= i < j < cur.len() implies chars_lt(#[trigger] cur[i], #[trigger] cur[j]) by {
            if j < prev.len() {
                assert(cur[i] == prev[i] && cur[j] == prev[j]);
            } else {
                assert(cur[i] == prev[i]);
                assert(prev[i] == a || chars_lt(prev[i], a));
                assert(prev.contains(prev[i]));
            }
        }
        assert forall|t: Seq<char>| cur.contains(t) <==> repeated_id(ids, n, t) by {
            if cur.contains(t) && t != b {
                let k = choose|k: int| 0 <= k < cur.len() && cur[k] == t;
                assert(prev[k] == t);
            }
            if prev.contains(t) {
                let k = choose|k: int| 0 <= k < prev.len() && prev[k] == t;
                assert(cur[k] == t);
            }
            if t == b {
                assert(cur[prev.len() as int] == b);
            }
        }
    } else {
        assert(prev == neighbour_duplicates(ids, n));
        if a == b {
            assert(prev.last() == b);
            assert(prev.contains(prev[prev.len() - 1]));
        }
    }
}

/// What `collect_stories` reports as duplicates is exactly the set of ids that two or more
/// of the collected stories share, each once, in ascending order.
pub proof fn lemma_collect_stories_reports_repeated_ids(
    stories: Seq<StoryDefinition>,
    order: Seq<usize>,
    collected: RegisteredStories,
)
    requires
        is_index_permutation(order, stories.len()),
        stably_sorted(stories, order),
        definitions_view(collected.stories@) == order.map_values(|i: usize| stories[i as int]@),
        strings_view(collected.duplicate_ids@) == neighbour_duplicates(
            story_ids(collected.stories@),
            collected.stories@.len() as int,
        ),
    ensures
        strictly_sorted(strings_view(collected.duplicate_ids@)),
        forall|t: Seq<char>|
            strings_view(collected.duplicate_ids@).contains(t) <==> repeated_id(
                story_ids(collected.stories@),
                collected.stories@.len() as int,
                t,
            ),
{
    let ids = story_ids(collected.stories@);
    lemma_sorted_stories_have_sorted_ids(stories, order);
    let sorted_ids = order.map_values(|i: usize| stories[i as int].id@);
    assert(definitions_view(collected.stories@).len() == collected.stories@.len());
    assert(ids.len() == sorted_ids.len());
    assert forall|k: int| 0 <= k < ids.len() implies ids[k] == sorted_ids[k] by {
        assert(definitions_view(collected.stories@)[k] == collected.stories@[k]@);
    }
    assert(ids =~= sorted_ids);
    lemma_duplicate_ids_are_the_repeated_ids(ids, ids.len() as int);
}

/// An id occurs at least twice exactly when the sequence counts it at least twice.
proof fn lemma_repeated_iff_counted(ids: Seq<Seq<char>>, t: Seq<char>)
    ensures
        repeated_id(ids, ids.len() as int, t) <==> ids.to_multiset().count(t) >= 2,
    decreases ids.len(),
{
    broadcast use vstd::multiset::group_multiset_axioms;

    if ids.len() == 0 {
        assert(ids.to_multiset() =~= vstd::multiset::Multiset::empty()) by {
            broadcast use vstd::seq_lib::group_to_multiset_ensures;
        }
        if repeated_id(ids, 0, t) {
            let (i, j) = choose|i: int, j: int| 0 <= i < j < 0 && #[trigger] ids[i] == t && #[trigger] ids[j] == t;
        }
        return;
    }
    let init = ids.drop_last();
    let last = ids.last();
    lemma_repeated_iff_counted(init, t);
    assert(init.push(last) =~= ids);
    vstd::seq_lib::to_multiset_build(init, last);
    vstd::seq_lib::to_multiset_contains(init, t);
    let n = ids.len() as int;
    if repeated_id(ids, n, t) {
        let (i, j) = choose|i: int, j: int| 0 <= i < j < n && #[trigger] ids[i] == t && #[trigger] ids[j] == t;
        if j < n - 1 {
            assert(init[i] == t && init[j] == t);
            assert(repeated_id(init, n - 1, t));
        } else {
            assert(init[i] == t);
            assert(init.contains(t));
        }
    }
    if ids.to_multiset().count(t) >= 2 {
        if init.to_multiset().count(t) >= 2 {
            let (i, j) = choose|i: int, j: int| 0 <= i < j < n - 1 && #[trigger] init[i] == t && #[trigger] init[j] == t;
            assert(ids[i] == t && ids[j] == t);
        } else {
            assert(last == t);
            assert(init.contains(t));
            let i = choose|i: int| 0 <= i < init.len() && init[i] == t;
            assert(ids[i] == t && ids[n - 1] == t);
        }
    }
}

/// Rearranging a list of ids keeps which of them repeat.
proof fn lemma_repeated_permuted(ids: Seq<Seq<char>>, order: Seq<usize>, t: Seq<char>)
    requires
        is_index_permutation(order, ids.len()),
    ensures
        repeated_id(permuted(ids, order), ids.len() as int, t) <==> repeated_id(ids, ids.len() as int, t),
{
    crate::sorting::lemma_permuted_multiset(ids, order);
    lemma_repeated_iff_counted(ids, t);
    lemma_repeated_iff_counted(permuted(ids, order), t);
}

/// Collecting stories sorts them deterministically and reports exactly the ids that two or
/// more of the registered stories share, each once and in ascending order; registering the
/// same stories in another order (`relabel`) gives the same sort keys in the same order and
/// the same duplicate ids. Colliding ids are reported, never a failure: `collect_stories`
/// accepts every input.
pub proof fn lemma_collect_stories(
    first: Seq<StoryDefinition>,
    relabel: Seq<usize>,
    first_result: RegisteredStories,
    second_result: RegisteredStories,
)
    requires
        is_index_permutation(relabel, first.len()),
        collected(first, first_result),
        collected(permuted(first, relabel), second_result),
    ensures
        strictly_sorted(strings_view(first_result.duplicate_ids@)),
        forall|t: Seq<char>|
            strings_view(first_result.duplicate_ids@).contains(t) <==> repeated_id(
                story_ids(first),
                first.len() as int,
                t,
            ),
        first_result.stories@.map_values(|d: StoryDefinition| story_key(d))
            == second_result.stories@.map_values(|d: StoryDefinition| story_key(d)),
        strings_view(first_result.duplicate_ids@) == strings_view(second_result.duplicate_ids@),
{
    let second = permuted(first, relabel);
    let o1 = choose|order: Seq<usize>|
        #![trigger stably_sorted(first, order)]
        is_index_permutation(order, first.len()) && stably_sorted(first, order)
            && definitions_view(first_result.stories@) == order.map_values(|i: usize| first[i as int]@);
    let o2 = choose|order: Seq<usize>|
        #![trigger stably_sorted(second, order)]
        is_index_permutation(order, second.len()) && stably_sorted(second, order)
            && definitions_view(second_result.stories@) == order.map_values(|i: usize| second[i as int]@);
    lemma_collect_stories_reports_repeated_ids(first, o1, first_result);
    lemma_collect_stories_reports_repeated_ids(second, o2, second_result);
    let ids = story_ids(first);
    let ids1 = story_ids(first_result.stories@);
    let ids2 = story_ids(second_result.stories@);
    assert(definitions_view(first_result.stories@).len() == first_result.stories@.len());
    assert(definitions_view(second_result.stories@).len() == second_result.stories@.len());
    assert(ids1 =~= permuted(ids, o1)) by {
        assert forall|k: int| 0 <= k < ids1.len() implies ids1[k] == permuted(ids, o1)[k] by {
            assert(definitions_view(first_result.stories@)[k] == first_result.stories@[k]@);
        }
    }
    assert(story_ids(second) =~= permuted(ids, relabel));
    assert(ids2 =~= permuted(story_ids(second), o2)) by {
        assert forall|k: int| 0 <= k < ids2.len() implies ids2[k] == permuted(story_ids(second), o2)[k] by {
            assert(definitions_view(second_result.stories@)[k] == second_result.stories@[k]@);
        }
    }
    assert forall|t: Seq<char>| strings_view(first_result.duplicate_ids@).contains(t) <==> repeated_id(
        ids,
        first.len() as int,
        t,
    ) by {
        lemma_repeated_permuted(ids, o1, t);
    }
    assert forall|t: Seq<char>| strings_view(first_result.duplicate_ids@).contains(t) <==> strings_view(
        second_result.duplicate_ids@,
    ).contains(t) by {
        lemma_repeated_permuted(ids, o1, t);
        lemma_repeated_permuted(ids, relabel, t);
        lemma_repeated_permuted(story_ids(second), o2, t);
    }
    crate::order::lemma_strictly_sorted_unique(
        strings_view(first_result.duplicate_ids@),
        strings_view(second_result.duplicate_ids@),
    );
    lemma_story_order_independent_of_registration(first, relabel, o1, o2);
    let k1 = first_result.stories@.map_values(|d: StoryDefinition| story_key(d));
    let k2 = second_result.stories@.map_values(|d: StoryDefinition| story_key(d));
    let p1 = permuted(first, o1).map_values(|d: StoryDefinition| story_key(d));
    let p2 = permuted(second, o2).map_values(|d: StoryDefinition| story_key(d));
    assert(k1 =~= p1) by {
        assert forall|k: int| 0 <= k < k1.len() implies k1[k] == p1[k] by {
            assert(definitions_view(first_result.stories@)[k] == first_result.stories@[k]@);
        }
    }
    assert(k2 =~= p2) by {
        assert forall|k: int| 0 <= k < k2.len() implies k2[k] == p2[k] by {
            assert(definitions_view(second_result.stories@)[k] == second_result.stories@[k]@);
        }
    }
}

} // verus!
