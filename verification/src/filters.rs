//! Tag collection and tag filtering for the sidebar.
use vstd::prelude::*;

use crate::manifest::{strings_view, StoryDefinition};
use crate::order::{insert_sorted_unique, lemma_strictly_sorted_unique, strictly_sorted};
use crate::text::str_eq;

verus! {

/// Whether some story of `definitions` carries `tag`.
pub open spec fn some_story_tagged(definitions: Seq<StoryDefinition>, tag: Seq<char>) -> bool {
    exists|i: int| 0 <= i < definitions.len() && strings_view(#[trigger] definitions[i].tags@).contains(tag)
}

/// Adds each of `tags` to a strictly sorted set of strings.
fn add_tags(out: &mut Vec<String>, tags: &Vec<String>)
    requires
        strictly_sorted(strings_view(old(out)@)),
    ensures
        strictly_sorted(strings_view(final(out)@)),
        forall|t: Seq<char>|
            strings_view(final(out)@).contains(t) <==> (strings_view(old(out)@).contains(t)
                || strings_view(tags@).contains(t)),
{
    let ghost before = strings_view(out@);
    let ghost tv = strings_view(tags@);
    let mut j: usize = 0;
    while j < tags.len()
        invariant
            before == strings_view(old(out)@),
            tv == strings_view(tags@),
            j <= tags@.len(),
            strictly_sorted(strings_view(out@)),
            forall|t: Seq<char>|
                strings_view(out@).contains(t) <==> (before.contains(t) || tv.take(j as int).contains(t)),
        decreases tags@.len() - j,
    {
        let ghost prev_out = strings_view(out@);
        assert(forall|t: Seq<char>| #[trigger] prev_out.contains(t) <==> (before.contains(t) || tv.take(j as int).contains(t)));
        insert_sorted_unique(out, tags[j].as_str());
        proof {
            assert(tv[j as int] == tags@[j as int]@);
            assert forall|t: Seq<char>| strings_view(out@).contains(t) <==> (before.contains(t)
                || tv.take(j + 1).contains(t)) by {
                if tv.take(j + 1).contains(t) {
                    let k = choose|k: int| 0 <= k < j + 1 && #[trigger] tv.take(j + 1)[k] == t;
                    if k < j {
                        assert(tv.take(j as int)[k] == t);
                        assert(tv.take(j as int).contains(t));
                    }
                }
                if t == tags@[j as int]@ {
                    assert(tv.take(j + 1)[j as int] == t);
                }
                if tv.take(j as int).contains(t) {
                    let k = choose|k: int| 0 <= k < j && #[trigger] tv.take(j as int)[k] == t;
                    assert(tv.take(j + 1)[k] == t);
                }
            }
        }
        j = j + 1;
    }
    proof {
        assert(tv.take(tags@.len() as int) =~= tv);
        assert forall|t: Seq<char>| strings_view(out@).contains(t) <==> (strings_view(old(out)@).contains(t)
            || strings_view(tags@).contains(t)) by {
            assert(strings_view(out@).contains(t) <==> (before.contains(t) || tv.take(j as int).contains(t)));
        }
    }
}

/// Collects every distinct tag across the given stories, sorted.
pub fn all_tags(definitions: &[StoryDefinition]) -> (r: Vec<String>)
    ensures
        strictly_sorted(strings_view(r@)),
        forall|t: Seq<char>| strings_view(r@).contains(t) <==> some_story_tagged(definitions@, t),
{
    let mut out: Vec<String> = Vec::new();
    let mut i: usize = 0;
    while i < definitions.len()
        invariant
            i <= definitions@.len(),
            strictly_sorted(strings_view(out@)),
            forall|t: Seq<char>|
                strings_view(out@).contains(t) <==> some_story_tagged(definitions@.take(i as int), t),
        decreases definitions@.len() - i,
    {
        let ghost before = strings_view(out@);
        add_tags(&mut out, &definitions[i].tags);
        proof {
            let d = definitions@.take(i + 1);
            let tv = strings_view(definitions@[i as int].tags@);
            assert forall|t: Seq<char>| strings_view(out@).contains(t) <==> some_story_tagged(d, t) by {
                if some_story_tagged(d, t) {
                    let k = choose|k: int| 0 <= k < d.len() && strings_view(#[trigger] d[k].tags@).contains(t);
                    if k < i {
                        assert(definitions@.take(i as int)[k] == d[k]);
                        assert(some_story_tagged(definitions@.take(i as int), t));
                    } else {
                        assert(tv.contains(t));
                    }
                }
                if some_story_tagged(definitions@.take(i as int), t) {
                    let k = choose|k: int| 0 <= k < i && strings_view(#[trigger] definitions@.take(i as int)[k].tags@).contains(t);
                    assert(d[k] == definitions@.take(i as int)[k]);
                }
                if tv.contains(t) {
                    assert(d[i as int] == definitions@[i as int]);
                    assert(strings_view(d[i as int].tags@).contains(t));
                }
                assert(before.contains(t) <==> some_story_tagged(definitions@.take(i as int), t));
            }
        }
        i = i + 1;
    }
    proof {
        assert(definitions@.take(definitions@.len() as int) =~= definitions@);
    }
    out
}

/// The tag list does not depend on the order of the stories: two lists of stories that are
/// rearrangements of each other give the same sorted, duplicate-free tag list.
pub proof fn lemma_all_tags_independent_of_order(
    first: Seq<StoryDefinition>,
    second: Seq<StoryDefinition>,
    first_tags: Seq<Seq<char>>,
    second_tags: Seq<Seq<char>>,
)
    requires
        first.to_multiset() == second.to_multiset(),
        strictly_sorted(first_tags),
        strictly_sorted(second_tags),
        forall|t: Seq<char>| first_tags.contains(t) <==> some_story_tagged(first, t),
        forall|t: Seq<char>| second_tags.contains(t) <==> some_story_tagged(second, t),
    ensures
        first_tags == second_tags,
{
    assert forall|t: Seq<char>| first_tags.contains(t) <==> second_tags.contains(t) by {
        if some_story_tagged(first, t) {
            let i = choose|i: int| 0 <= i < first.len() && strings_view(#[trigger] first[i].tags@).contains(t);
            vstd::seq_lib::to_multiset_contains(first, first[i]);
            vstd::seq_lib::to_multiset_contains(second, first[i]);
            let j = choose|j: int| 0 <= j < second.len() && second[j] == first[i];
            assert(strings_view(second[j].tags@).contains(t));
        }
        if some_story_tagged(second, t) {
            let j = choose|j: int| 0 <= j < second.len() && strings_view(#[trigger] second[j].tags@).contains(t);
            vstd::seq_lib::to_multiset_contains(second, second[j]);
            vstd::seq_lib::to_multiset_contains(first, second[j]);
            let i = choose|i: int| 0 <= i < first.len() && first[i] == second[j];
            assert(strings_view(first[i].tags@).contains(t));
        }
    }
    lemma_strictly_sorted_unique(first_tags, second_tags);
}

/// Whether a story survives the tag filter `tag` (`None` keeps every story).
pub open spec fn tag_matches(definition: StoryDefinition, tag: Option<Seq<char>>) -> bool {
    match tag {
        None => true,
        Some(t) => strings_view(definition.tags@).contains(t),
    }
}

/// Returns `true` when a story survives the given tag filter.
pub fn matches_tag(definition: &StoryDefinition, tag: Option<&str>) -> (r: bool)
    ensures
        r == tag_matches(
            *definition,
            match tag {
                Some(t) => Some(t@),
                None => None,
            },
        ),
{
    match tag {
        None => true,
        Some(t) => {
            let mut i: usize = 0;
            while i < definition.tags.len()
                invariant
                    tag == Some(t),
                    i <= definition.tags@.len(),
                    forall|k: int| 0 <= k < i ==> definition.tags@[k]@ != t@,
                decreases definition.tags@.len() - i,
            {
                if str_eq(definition.tags[i].as_str(), t) {
                    assert(strings_view(definition.tags@)[i as int] == t@);
                    assert(strings_view(definition.tags@).contains(t@));
                    return true;
                }
                i = i + 1;
            }
            proof {
                if strings_view(definition.tags@).contains(t@) {
                    let k = choose|k: int| 0 <= k < definition.tags@.len() && #[trigger] strings_view(definition.tags@)[k] == t@;
                    assert(definition.tags@[k]@ == t@);
                }
            }
            false
        },
    }
}

/// The stories of `definitions[..n]` that survive the tag filter, in order.
pub open spec fn matching_prefix(
    definitions: Seq<StoryDefinition>,
    tag: Option<Seq<char>>,
    n: int,
) -> Seq<StoryDefinition>
    decreases n,
{
    if n <= 0 {
        Seq::empty()
    } else {
        let prev = matching_prefix(definitions, tag, n - 1);
        if tag_matches(definitions[n - 1], tag) {
            prev.push(definitions[n - 1])
        } else {
            prev
        }
    }
}

/// Keeps only the stories that survive the given tag filter.
pub fn matching<'a>(definitions: &'a [StoryDefinition], tag: Option<&str>) -> (r: Vec<
    &'a StoryDefinition,
>)
    ensures
        r@.map_values(|d: &StoryDefinition| *d) == matching_prefix(
            definitions@,
            match tag {
                Some(t) => Some(t@),
                None => None,
            },
            definitions@.len() as int,
        ),
{
    let ghost tv = match tag {
        Some(t) => Some(t@),
        None => None,
    };
    let mut out: Vec<&'a StoryDefinition> = Vec::new();
    proof {
        assert(out@.map_values(|d: &StoryDefinition| *d) =~= Seq::<StoryDefinition>::empty());
    }
    let mut i: usize = 0;
    while i < definitions.len()
        invariant
            i <= definitions@.len(),
            tv == match tag {
                Some(t) => Some(t@),
                None => None::<Seq<char>>,
            },
            out@.map_values(|d: &StoryDefinition| *d) == matching_prefix(definitions@, tv, i as int),
        decreases definitions@.len() - i,
    {
        let ghost before = out@;
        if matches_tag(&definitions[i], tag) {
            out.push(&definitions[i]);
            proof {
                assert(out@.map_values(|d: &StoryDefinition| *d) =~= before.map_values(
                    |d: &StoryDefinition| *d,
                ).push(definitions@[i as int]));
            }
        }
        i = i + 1;
    }
    out
}

/// Without a selected tag every story survives the filter, untagged ones included.
pub proof fn lemma_no_tag_keeps_every_story(definitions: Seq<StoryDefinition>)
    ensures
        matching_prefix(definitions, None, definitions.len() as int) == definitions,
{
    lemma_no_tag_keeps_prefix(definitions, definitions.len() as int);
    assert(definitions.take(definitions.len() as int) =~= definitions);
}

proof fn lemma_no_tag_keeps_prefix(definitions: Seq<StoryDefinition>, n: int)
    requires
        0 <= n <= definitions.len(),
    ensures
        matching_prefix(definitions, None, n) == definitions.take(n),
    decreases n,
{
    if n == 0 {
        assert(definitions.take(0) =~= Seq::<StoryDefinition>::empty());
    } else {
        lemma_no_tag_keeps_prefix(definitions, n - 1);
        assert(definitions.take(n) =~= definitions.take(n - 1).push(definitions[n - 1]));
    }
}

/// Under a selected tag, exactly the stories carrying it survive: every survivor carries the
/// tag (so an untagged story never does), and every story of the first `n` that carries it is
/// among the survivors.
pub proof fn lemma_selected_tag_keeps_carriers(definitions: Seq<StoryDefinition>, tag: Seq<char>, n: int)
    requires
        0 <= n <= definitions.len(),
    ensures
        forall|k: int|
            0 <= k < matching_prefix(definitions, Some(tag), n).len() ==> strings_view(
                #[trigger] matching_prefix(definitions, Some(tag), n)[k].tags@,
            ).contains(tag),
        forall|i: int|
            0 <= i < n && strings_view(#[trigger] definitions[i].tags@).contains(tag)
                ==> matching_prefix(definitions, Some(tag), n).contains(definitions[i]),
    decreases n,
{
    if n > 0 {
        lemma_selected_tag_keeps_carriers(definitions, tag, n - 1);
        let prev = matching_prefix(definitions, Some(tag), n - 1);
        let cur = matching_prefix(definitions, Some(tag), n);
        if tag_matches(definitions[n - 1], Some(tag)) {
            assert(cur == prev.push(definitions[n - 1]));
            assert forall|i: int|
                0 <= i < n && strings_view(#[trigger] definitions[i].tags@).contains(tag)
                    implies cur.contains(definitions[i]) by {
                if i < n - 1 {
                    let j = choose|j: int| 0 <= j < prev.len() && prev[j] == definitions[i];
                    assert(cur[j] == definitions[i]);
                } else {
                    assert(cur[prev.len() as int] == definitions[i]);
                }
            }
        }
    }
}

} // verus!
