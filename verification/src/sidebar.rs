//! The sidebar: the navigation tree of the registered stories and which branches start open.
use vstd::prelude::*;

use crate::manifest::StoryDefinition;
use crate::navigation::{
    build_story_navigation, entries_of, lemma_nodes_view, navigation_of, node_view, nodes_view,
    NavNode, StoryNavigationNode,
};
use crate::runtime::StoryTreeEntry;
use crate::text::str_eq;

verus! {

/// A borrowed view of a registered story as a navigation tree entry.
pub struct NavEntry<'a> {
    pub id: &'a str,
    pub title: &'a str,
}

impl<'a> StoryTreeEntry for NavEntry<'a> {
    open spec fn id_view(&self) -> Seq<char> {
        self.id@
    }

    open spec fn title_view(&self) -> Seq<char> {
        self.title@
    }

    /// Returns the route id this navigation entry links to.
    fn story_id(&self) -> (r: &str) {
        self.id
    }

    /// Returns the slash-delimited title the tree is folded on.
    fn story_title(&self) -> (r: &str) {
        self.title
    }
}

/// The `(id, title)` pairs of a list of story definitions.
pub open spec fn definition_entries(definitions: Seq<StoryDefinition>) -> Seq<(Seq<char>, Seq<char>)> {
    definitions.map_values(|d: StoryDefinition| (d.id@, d.title@))
}

/// Builds the navigation tree for an already-filtered set of stories.
pub fn navigation(definitions: &[&StoryDefinition]) -> (r: Vec<StoryNavigationNode>)
    ensures
        nodes_view(r@) == navigation_of(
            definition_entries(definitions@.map_values(|d: &StoryDefinition| *d)),
        ),
{
    let mut entries: Vec<NavEntry> = Vec::new();
    let mut i: usize = 0;
    while i < definitions.len()
        invariant
            i <= definitions@.len(),
            entries_of(entries@) == definition_entries(
                definitions@.take(i as int).map_values(|d: &StoryDefinition| *d),
            ),
        decreases definitions@.len() - i,
    {
        let d = definitions[i];
        let ghost before = entries@;
        entries.push(NavEntry { id: d.id.as_str(), title: d.title.as_str() });
        proof {
            assert(entries_of(entries@) =~= entries_of(before).push((d.id@, d.title@)));
            assert(definitions@.take(i + 1).map_values(|d: &StoryDefinition| *d) =~= definitions@.take(
                i as int,
            ).map_values(|d: &StoryDefinition| *d).push(*d));
            assert(definition_entries(
                definitions@.take(i + 1).map_values(|d: &StoryDefinition| *d),
            ) =~= definition_entries(
                definitions@.take(i as int).map_values(|d: &StoryDefinition| *d),
            ).push((d.id@, d.title@)));
        }
        i = i + 1;
    }
    proof {
        assert(definitions@.take(definitions@.len() as int) =~= definitions@);
    }
    build_story_navigation(entries.as_slice())
}

/// Whether a node or one of its descendants opens the story `active`.
pub open spec fn subtree_has(n: NavNode, active: Seq<char>) -> bool
    decreases n, 1int,
{
    n.story_id == Some(active) || children_have(n.children, active)
}

/// Whether some node of `children`, or a descendant of one, opens the story `active`.
pub open spec fn children_have(children: Seq<NavNode>, active: Seq<char>) -> bool
    decreases children, 0int,
{
    if children.len() == 0 {
        false
    } else {
        children_have(children.subrange(0, children.len() - 1), active) || subtree_has(
            children[children.len() - 1],
            active,
        )
    }
}

/// Returns `true` when a navigation node contains the active story at or below it.
pub fn contains_active_story(node: &StoryNavigationNode, active_id: Option<&str>) -> (r: bool)
    ensures
        r == match active_id {
            Some(a) => subtree_has(node_view(*node), a@),
            None => false,
        },
    decreases node,
{
    match active_id {
        None => false,
        Some(a) => {
            let own = match &node.story_id {
                Some(id) => str_eq(id.as_str(), a),
                None => false,
            };
            if own {
                return true;
            }
            let ghost children = node.children@;
            proof {
                lemma_nodes_view(children);
            }
            let mut i: usize = 0;
            while i < node.children.len()
                invariant
                    active_id == Some(a),
                    children == node.children@,
                    nodes_view(children).len() == children.len(),
                    forall|k: int| 0 <= k < children.len() ==> #[trigger] nodes_view(children)[k] == node_view(children[k]),
                    i <= children.len(),
                    !children_have(nodes_view(children).subrange(0, i as int), a@),
                decreases children.len() - i,
            {
                assert(decreases_to!(*node => node.children));
                if contains_active_story(&node.children[i], active_id) {
                    proof {
                        let cs = nodes_view(children).subrange(0, i + 1);
                        assert(cs.subrange(0, i as int) =~= nodes_view(children).subrange(0, i as int));
                        lemma_children_have_prefix(nodes_view(children), i + 1, a@);
                    }
                    return true;
                }
                proof {
                    let cs = nodes_view(children).subrange(0, i + 1);
                    assert(cs.subrange(0, i as int) =~= nodes_view(children).subrange(0, i as int));
                }
                i = i + 1;
            }
            proof {
                assert(nodes_view(children).subrange(0, children.len() as int) =~= nodes_view(children));
            }
            false
        },
    }
}

proof fn lemma_children_have_prefix(children: Seq<NavNode>, k: int, active: Seq<char>)
    requires
        0 <= k <= children.len(),
        children_have(children.subrange(0, k), active),
    ensures
        children_have(children, active),
    decreases children.len() - k,
{
    if k < children.len() {
        let next = children.subrange(0, k + 1);
        assert(next.subrange(0, k) =~= children.subrange(0, k));
        lemma_children_have_prefix(children, k + 1, active);
    } else {
        assert(children.subrange(0, k) =~= children);
    }
}

} // verus!
