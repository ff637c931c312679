//! The sidebar tree: slash-delimited story titles folded into nested nodes.
use vstd::prelude::*;

use crate::manifest::{lemma_strings_view_push, strings_view};
use crate::runtime::StoryTreeEntry;
use crate::text::{concat3, push_char, str_eq, trim_set, trimmed, TrimSet};

verus! {

/// One node of the navigation tree.
#[derive(Debug, PartialEq, Eq)]
pub struct StoryNavigationNode {
    /// This node's own title segment, e.g. `Button`.
    pub segment: String,
    /// The segments from the root down to this node, joined by `/`, e.g. `Atoms/Button`.
    pub title_path: String,
    /// The story this node opens, when a story's title ends here.
    pub story_id: Option<String>,
    /// The nodes one level further down, in insertion order.
    pub children: Vec<StoryNavigationNode>,
}

/// The mathematical content of a navigation node.
pub struct NavNode {
    pub segment: Seq<char>,
    pub title_path: Seq<char>,
    pub story_id: Option<Seq<char>>,
    pub children: Seq<NavNode>,
}

/// The characters of an optional string.
pub open spec fn opt_view(o: Option<String>) -> Option<Seq<char>> {
    match o {
        Some(s) => Some(s@),
        None => None,
    }
}

/// The content of one node, recursively.
pub open spec fn node_view(n: StoryNavigationNode) -> NavNode
    decreases n, 1int,
{
    NavNode {
        segment: n.segment@,
        title_path: n.title_path@,
        story_id: opt_view(n.story_id),
        children: nodes_view(n.children@),
    }
}

/// The content of a sequence of nodes, element by element.
pub open spec fn nodes_view(s: Seq<StoryNavigationNode>) -> Seq<NavNode>
    decreases s, 0int,
{
    if s.len() == 0 {
        Seq::empty()
    } else {
        nodes_view(s.subrange(0, s.len() - 1)).push(node_view(s[s.len() - 1]))
    }
}

/// The view of a node sequence has one view per node.
pub proof fn lemma_nodes_view(s: Seq<StoryNavigationNode>)
    ensures
        nodes_view(s).len() == s.len(),
        forall|i: int| 0 <= i < s.len() ==> #[trigger] nodes_view(s)[i] == node_view(s[i]),
    decreases s.len(),
{
    if s.len() > 0 {
        let init = s.subrange(0, s.len() - 1);
        lemma_nodes_view(init);
        assert forall|i: int| 0 <= i < s.len() implies #[trigger] nodes_view(s)[i] == node_view(
            s[i],
        ) by {
            if i < s.len() - 1 {
                assert(init[i] == s[i]);
            }
        }
    }
}

/// The title path of a child called `segment` under a parent whose path is `parent`
/// (`None` at the root).
pub open spec fn child_path(parent: Option<Seq<char>>, segment: Seq<char>) -> Seq<char> {
    match parent {
        None => segment,
        Some(p) => p + seq!['/'] + segment,
    }
}

/// The index of the first of `nodes[from..]` whose segment is `segment`, or -1.
pub open spec fn find_segment_from(nodes: Seq<NavNode>, segment: Seq<char>, from: int) -> int
    decreases nodes.len() - from,
{
    if from < 0 || from >= nodes.len() {
        -1
    } else if nodes[from].segment == segment {
        from
    } else {
        find_segment_from(nodes, segment, from + 1)
    }
}

/// The index of the first node whose segment is `segment`, or -1.
pub open spec fn find_segment(nodes: Seq<NavNode>, segment: Seq<char>) -> int {
    find_segment_from(nodes, segment, 0)
}

/// `nodes` with the story `id` placed at the path `segments` below a parent whose title
/// path is `parent`: each segment reuses the first sibling of that name, or appends a new
/// node; the last one takes the story id.
pub open spec fn insert_path(
    nodes: Seq<NavNode>,
    parent: Option<Seq<char>>,
    segments: Seq<Seq<char>>,
    id: Seq<char>,
) -> Seq<NavNode>
    decreases segments.len(),
{
    if segments.len() == 0 {
        nodes
    } else {
        let segment = segments[0];
        let found = find_segment(nodes, segment);
        let base = if found >= 0 {
            nodes
        } else {
            nodes.push(
                NavNode {
                    segment,
                    title_path: child_path(parent, segment),
                    story_id: None,
                    children: Seq::empty(),
                },
            )
        };
        let index = if found >= 0 {
            found
        } else {
            nodes.len() as int
        };
        let node = base[index];
        let updated = if segments.len() == 1 {
            NavNode { story_id: Some(id), ..node }
        } else {
            NavNode {
                children: insert_path(
                    node.children,
                    Some(node.title_path),
                    segments.drop_first(),
                    id,
                ),
                ..node
            }
        };
        base.update(index, updated)
    }
}

/// The story that the path `segments` leads to, following the first sibling of each name.
pub open spec fn story_at(nodes: Seq<NavNode>, segments: Seq<Seq<char>>) -> Option<Seq<char>>
    decreases segments.len(),
{
    if segments.len() == 0 {
        None
    } else {
        let found = find_segment(nodes, segments[0]);
        if found < 0 {
            None
        } else if segments.len() == 1 {
            nodes[found].story_id
        } else {
            story_at(nodes[found].children, segments.drop_first())
        }
    }
}

/// The pieces of `s` between occurrences of `sep`, as `str::split` yields them.
pub open spec fn split_on(s: Seq<char>, sep: char) -> Seq<Seq<char>>
    decreases s.len(),
{
    if s.len() == 0 {
        seq![Seq::empty()]
    } else {
        let init = split_on(s.drop_last(), sep);
        if s.last() == sep {
            init.push(Seq::empty())
        } else {
            init.update(init.len() - 1, init.last().push(s.last()))
        }
    }
}

pub proof fn lemma_split_on_nonempty(s: Seq<char>, sep: char)
    ensures
        split_on(s, sep).len() >= 1,
    decreases s.len(),
{
    if s.len() > 0 {
        lemma_split_on_nonempty(s.drop_last(), sep);
    }
}

/// The whitespace-trimmed pieces that are not empty, in order.
pub open spec fn kept_segments(pieces: Seq<Seq<char>>) -> Seq<Seq<char>>
    decreases pieces.len(),
{
    if pieces.len() == 0 {
        Seq::empty()
    } else {
        let prev = kept_segments(pieces.drop_last());
        let t = trimmed(pieces.last(), TrimSet::Whitespace);
        if t.len() > 0 {
            prev.push(t)
        } else {
            prev
        }
    }
}

/// The tree segments of a story title: the trimmed title split at `/`, each piece trimmed,
/// empty pieces dropped.
pub open spec fn title_segments(title: Seq<char>) -> Seq<Seq<char>> {
    kept_segments(split_on(trimmed(title, TrimSet::Whitespace), '/'))
}

/// The tree built by inserting each `(id, title)` entry in order.
pub open spec fn navigation_of(entries: Seq<(Seq<char>, Seq<char>)>) -> Seq<NavNode>
    decreases entries.len(),
{
    if entries.len() == 0 {
        Seq::empty()
    } else {
        let last = entries.last();
        insert_path(navigation_of(entries.drop_last()), None, title_segments(last.1), last.0)
    }
}

/// The id of the last entry whose title has exactly the segments `segments`.
pub open spec fn last_story_titled(
    entries: Seq<(Seq<char>, Seq<char>)>,
    segments: Seq<Seq<char>>,
) -> Option<Seq<char>>
    decreases entries.len(),
{
    if entries.len() == 0 {
        None
    } else if title_segments(entries.last().1) == segments {
        Some(entries.last().0)
    } else {
        last_story_titled(entries.drop_last(), segments)
    }
}

/// The `(id, title)` pairs of a slice of tree entries.
pub open spec fn entries_of<T: StoryTreeEntry>(stories: Seq<T>) -> Seq<(Seq<char>, Seq<char>)> {
    stories.map_values(|e: T| (e.id_view(), e.title_view()))
}


proof fn lemma_find_segment_from_bounds(nodes: Seq<NavNode>, x: Seq<char>, from: int)
    requires
        0 <= from,
    ensures
        find_segment_from(nodes, x, from) == -1 || (from <= find_segment_from(nodes, x, from)
            < nodes.len() && nodes[find_segment_from(nodes, x, from)].segment == x),
        forall|k: int|
            from <= k < nodes.len() && (find_segment_from(nodes, x, from) == -1 || k
                < find_segment_from(nodes, x, from)) ==> #[trigger] nodes[k].segment != x,
    decreases nodes.len() - from,
{
    if from < nodes.len() && nodes[from].segment != x {
        lemma_find_segment_from_bounds(nodes, x, from + 1);
    }
}

/// A first match is determined by the segments alone.
proof fn lemma_find_segment_same_segments(a: Seq<NavNode>, b: Seq<NavNode>, x: Seq<char>, from: int)
    requires
        0 <= from,
        a.len() == b.len(),
        forall|k: int| 0 <= k < a.len() ==> #[trigger] a[k].segment == b[k].segment,
    ensures
        find_segment_from(a, x, from) == find_segment_from(b, x, from),
    decreases a.len() - from,
{
    if from < a.len() {
        lemma_find_segment_same_segments(a, b, x, from + 1);
    }
}

/// Appending a node changes a first match only when there was none.
proof fn lemma_find_segment_push(nodes: Seq<NavNode>, n: NavNode, x: Seq<char>, from: int)
    requires
        0 <= from <= nodes.len(),
    ensures
        find_segment_from(nodes.push(n), x, from) == if find_segment_from(nodes, x, from) >= 0 {
            find_segment_from(nodes, x, from)
        } else if n.segment == x {
            nodes.len() as int
        } else {
            -1
        },
    decreases nodes.len() - from,
{
    if from < nodes.len() {
        assert(nodes.push(n)[from] == nodes[from]);
        lemma_find_segment_push(nodes, n, x, from + 1);
    } else {
        assert(nodes.push(n)[from] == n);
        assert(find_segment_from(nodes.push(n), x, from + 1) == -1);
    }
}

/// Inserting a story at a path changes what that path leads to and nothing else.
pub proof fn lemma_story_at_after_insert(
    nodes: Seq<NavNode>,
    parent: Option<Seq<char>>,
    segments: Seq<Seq<char>>,
    id: Seq<char>,
    path: Seq<Seq<char>>,
)
    requires
        segments.len() > 0,
    ensures
        story_at(insert_path(nodes, parent, segments, id), path) == if path == segments {
            Some(id)
        } else {
            story_at(nodes, path)
        },
    decreases segments.len(),
{
    let segment = segments[0];
    let found = find_segment(nodes, segment);
    let new_node = NavNode {
        segment,
        title_path: child_path(parent, segment),
        story_id: None,
        children: Seq::empty(),
    };
    let base = if found >= 0 {
        nodes
    } else {
        nodes.push(new_node)
    };
    let index = if found >= 0 {
        found
    } else {
        nodes.len() as int
    };
    let node = base[index];
    let result = insert_path(nodes, parent, segments, id);
    lemma_find_segment_from_bounds(nodes, segment, 0);
    assert(0 <= index < base.len());
    assert(base[index].segment == segment);
    assert(result.len() == base.len());
    assert forall|k: int| 0 <= k < result.len() implies #[trigger] result[k].segment
        == base[k].segment by {}
    if path.len() == 0 {
        return;
    }
    let head = path[0];
    lemma_find_segment_same_segments(result, base, head, 0);
    if found < 0 {
        lemma_find_segment_push(nodes, new_node, head, 0);
        assert(story_at(Seq::<NavNode>::empty(), path.drop_first()) == None::<Seq<char>>) by {
            if path.drop_first().len() > 0 {
                assert(find_segment_from(Seq::<NavNode>::empty(), path.drop_first()[0], 0) == -1);
            }
        }
    }
    let j = find_segment(nodes, head);
    lemma_find_segment_from_bounds(nodes, head, 0);
    if head != segment {
        assert(path != segments);
        assert(find_segment(result, head) == j);
        if j >= 0 {
            assert(j != index);
            assert(result[j] == nodes[j]);
        }
    } else {
        assert(find_segment(result, head) == index);
        if path.len() == 1 && segments.len() == 1 {
            assert(path =~= segments);
        } else if segments.len() == 1 {
            assert(path != segments);
        } else if path.len() == 1 {
            assert(path != segments);
        } else {
            lemma_story_at_after_insert(
                node.children,
                Some(node.title_path),
                segments.drop_first(),
                id,
                path.drop_first(),
            );
            if path == segments {
                assert(path.drop_first() == segments.drop_first());
            } else {
                assert(path.drop_first() != segments.drop_first()) by {
                    if path.drop_first() == segments.drop_first() {
                        assert(path =~= segments) by {
                            assert forall|k: int| 0 <= k < path.len() implies path[k]
                                == segments[k] by {
                                if k > 0 {
                                    assert(path[k] == path.drop_first()[k - 1]);
                                    assert(segments[k] == segments.drop_first()[k - 1]);
                                }
                            }
                        }
                    }
                }
            }
        }
    }
}

/// Reading the tree back: the story a path leads to is that of the last entry whose
/// title has exactly those segments.
pub proof fn lemma_navigation_story_lookup(
    entries: Seq<(Seq<char>, Seq<char>)>,
    path: Seq<Seq<char>>,
)
    requires
        path.len() > 0,
    ensures
        story_at(navigation_of(entries), path) == last_story_titled(entries, path),
    decreases entries.len(),
{
    if entries.len() > 0 {
        let last = entries.last();
        lemma_navigation_story_lookup(entries.drop_last(), path);
        let segments = title_segments(last.1);
        if segments.len() > 0 {
            lemma_story_at_after_insert(
                navigation_of(entries.drop_last()),
                None,
                segments,
                last.0,
                path,
            );
        } else {
            assert(segments != path);
        }
    }
}

/// A well-formed node: its title path extends its parent's by its segment, and so on
/// all the way down.
pub open spec fn well_formed_node(n: NavNode, parent: Option<Seq<char>>) -> bool
    decreases n, 1int,
{
    n.title_path == child_path(parent, n.segment) && well_formed_nodes(
        n.children,
        Some(n.title_path),
    )
}

/// Well-formed siblings below `parent`: each well-formed, no two with the same segment.
pub open spec fn well_formed_nodes(nodes: Seq<NavNode>, parent: Option<Seq<char>>) -> bool
    decreases nodes, 0int,
{
    if nodes.len() == 0 {
        true
    } else {
        let init = nodes.subrange(0, nodes.len() - 1);
        let last = nodes[nodes.len() - 1];
        well_formed_nodes(init, parent) && well_formed_node(last, parent) && forall|i: int|
            0 <= i < init.len() ==> #[trigger] init[i].segment != last.segment
    }
}

proof fn lemma_well_formed_nodes_pointwise(nodes: Seq<NavNode>, parent: Option<Seq<char>>)
    ensures
        well_formed_nodes(nodes, parent) <==> ((forall|i: int|
            0 <= i < nodes.len() ==> well_formed_node(#[trigger] nodes[i], parent)) && (forall|
            i: int,
            j: int,
        | 0 <= i < j < nodes.len() ==> #[trigger] nodes[i].segment != #[trigger] nodes[j].segment)),
    decreases nodes.len(),
{
    if nodes.len() > 0 {
        let init = nodes.subrange(0, nodes.len() - 1);
        lemma_well_formed_nodes_pointwise(init, parent);
        assert forall|i: int| 0 <= i < init.len() implies #[trigger] init[i] == nodes[i] by {}
        if well_formed_nodes(nodes, parent) {
            assert forall|i: int| 0 <= i < nodes.len() implies well_formed_node(
                #[trigger] nodes[i],
                parent,
            ) by {
                if i < init.len() {
                    assert(init[i] == nodes[i]);
                }
            }
            assert forall|i: int, j: int| 0 <= i < j < nodes.len() implies #[trigger] nodes[i].segment
                != #[trigger] nodes[j].segment by {
                if j < init.len() {
                    assert(init[i] == nodes[i] && init[j] == nodes[j]);
                } else {
                    assert(init[i] == nodes[i]);
                }
            }
        }
        if (forall|i: int| 0 <= i < nodes.len() ==> well_formed_node(#[trigger] nodes[i], parent))
            && (forall|i: int, j: int|
            0 <= i < j < nodes.len() ==> #[trigger] nodes[i].segment != #[trigger] nodes[j].segment) {
            assert forall|i: int| 0 <= i < init.len() implies well_formed_node(
                #[trigger] init[i],
                parent,
            ) by {
                assert(init[i] == nodes[i]);
            }
            assert forall|i: int, j: int| 0 <= i < j < init.len() implies #[trigger] init[i].segment
                != #[trigger] init[j].segment by {
                assert(init[i] == nodes[i] && init[j] == nodes[j]);
            }
            assert forall|i: int| 0 <= i < init.len() implies #[trigger] init[i].segment
                != nodes[nodes.len() - 1].segment by {
                assert(init[i] == nodes[i]);
            }
        }
    }
}

/// Inserting a story keeps a tree well-formed: title paths stay the paths of their
/// segments, and no two siblings share a segment.
pub proof fn lemma_insert_keeps_well_formed(
    nodes: Seq<NavNode>,
    parent: Option<Seq<char>>,
    segments: Seq<Seq<char>>,
    id: Seq<char>,
)
    requires
        well_formed_nodes(nodes, parent),
    ensures
        well_formed_nodes(insert_path(nodes, parent, segments, id), parent),
    decreases segments.len(),
{
    if segments.len() == 0 {
        return;
    }
    let segment = segments[0];
    let found = find_segment(nodes, segment);
    let new_node = NavNode {
        segment,
        title_path: child_path(parent, segment),
        story_id: None,
        children: Seq::empty(),
    };
    let base = if found >= 0 {
        nodes
    } else {
        nodes.push(new_node)
    };
    let index = if found >= 0 {
        found
    } else {
        nodes.len() as int
    };
    let node = base[index];
    let result = insert_path(nodes, parent, segments, id);
    lemma_find_segment_from_bounds(nodes, segment, 0);
    lemma_well_formed_nodes_pointwise(nodes, parent);
    lemma_well_formed_nodes_pointwise(base, parent);
    if found < 0 {
        assert(well_formed_nodes(Seq::<NavNode>::empty(), Some(new_node.title_path)));
        assert(well_formed_node(new_node, parent));
        assert forall|i: int| 0 <= i < base.len() implies well_formed_node(#[trigger] base[i], parent) by {
            if i < nodes.len() {
                assert(base[i] == nodes[i]);
            }
        }
        assert forall|i: int, j: int| 0 <= i < j < base.len() implies #[trigger] base[i].segment
            != #[trigger] base[j].segment by {
            if j < nodes.len() {
                assert(base[i] == nodes[i] && base[j] == nodes[j]);
            } else {
                assert(base[i] == nodes[i]);
            }
        }
    }
    assert(well_formed_nodes(base, parent));
    assert(well_formed_node(node, parent));
    lemma_well_formed_nodes_pointwise(result, parent);
    if segments.len() > 1 {
        lemma_insert_keeps_well_formed(
            node.children,
            Some(node.title_path),
            segments.drop_first(),
            id,
        );
    }
    assert forall|i: int| 0 <= i < result.len() implies well_formed_node(#[trigger] result[i], parent) by {
        if i != index {
            assert(result[i] == base[i]);
        }
    }
    assert forall|i: int, j: int| 0 <= i < j < result.len() implies #[trigger] result[i].segment
        != #[trigger] result[j].segment by {
        assert(result[i].segment == base[i].segment);
        assert(result[j].segment == base[j].segment);
    }
}

/// Every tree the navigation builds is well-formed.
pub proof fn lemma_navigation_well_formed(entries: Seq<(Seq<char>, Seq<char>)>)
    ensures
        well_formed_nodes(navigation_of(entries), None),
    decreases entries.len(),
{
    if entries.len() > 0 {
        lemma_navigation_well_formed(entries.drop_last());
        lemma_insert_keeps_well_formed(
            navigation_of(entries.drop_last()),
            None,
            title_segments(entries.last().1),
            entries.last().0,
        );
    }
}

/// The first node of `nodes` whose segment is `segment`.
fn find_node(nodes: &Vec<StoryNavigationNode>, segment: &str) -> (r: Option<usize>)
    ensures
        match r {
            Some(i) => i < nodes@.len() && find_segment(nodes_view(nodes@), segment@) == i,
            None => find_segment(nodes_view(nodes@), segment@) == -1,
        },
{
    proof {
        lemma_nodes_view(nodes@);
    }
    let ghost view = nodes_view(nodes@);
    let mut i: usize = 0;
    while i < nodes.len()
        invariant
            i <= nodes@.len(),
            view == nodes_view(nodes@),
            view.len() == nodes@.len(),
            forall|k: int| 0 <= k < nodes@.len() ==> #[trigger] view[k] == node_view(nodes@[k]),
            find_segment(view, segment@) == find_segment_from(view, segment@, i as int),
        decreases nodes@.len() - i,
    {
        if str_eq(nodes[i].segment.as_str(), segment) {
            return Some(i);
        }
        i = i + 1;
    }
    None
}

/// Splits a trimmed title at `/`, trims each piece and drops the empty ones.
fn split_story_title(title: &str) -> (r: Vec<String>)
    ensures
        strings_view(r@) == kept_segments(split_on(title@, '/')),
{
    let n = title.unicode_len();
    let mut out: Vec<String> = Vec::new();
    let mut current = String::new();
    let ghost mut done: Seq<Seq<char>> = Seq::empty();
    let mut i: usize = 0;
    while i < n
        invariant
            n == title@.len(),
            i <= n,
            split_on(title@.take(i as int), '/') == done.push(current@),
            strings_view(out@) == kept_segments(done),
        decreases n - i,
    {
        let c = title.get_char(i);
        proof {
            assert(title@.take(i + 1).drop_last() =~= title@.take(i as int));
            assert(title@.take(i + 1).last() == c);
        }
        if c == '/' {
            let piece = trim_set(current.as_str(), &TrimSet::Whitespace);
            proof {
                assert(done.push(current@).drop_last() =~= done);
                lemma_strings_view_push(out@, piece);
            }
            if piece.unicode_len() > 0 {
                out.push(piece);
            }
            proof {
                done = done.push(current@);
            }
            current = String::new();
        } else {
            let ghost before = current@;
            push_char(&mut current, c);
            proof {
                assert(done.push(before).update(done.len() as int, before.push(c)) =~= done.push(
                    current@,
                ));
            }
        }
        i = i + 1;
    }
    proof {
        assert(title@.take(n as int) =~= title@);
    }
    let piece = trim_set(current.as_str(), &TrimSet::Whitespace);
    proof {
        assert(done.push(current@).drop_last() =~= done);
        lemma_strings_view_push(out@, piece);
    }
    if piece.unicode_len() > 0 {
        out.push(piece);
    }
    out
}


proof fn lemma_nodes_view_push(s: Seq<StoryNavigationNode>, n: StoryNavigationNode)
    ensures
        nodes_view(s.push(n)) == nodes_view(s).push(node_view(n)),
{
    lemma_nodes_view(s);
    lemma_nodes_view(s.push(n));
    assert(nodes_view(s.push(n)) =~= nodes_view(s).push(node_view(n)));
}

proof fn lemma_nodes_view_update(s: Seq<StoryNavigationNode>, i: int, n: StoryNavigationNode)
    requires
        0 <= i < s.len(),
    ensures
        nodes_view(s.update(i, n)) == nodes_view(s).update(i, node_view(n)),
{
    lemma_nodes_view(s);
    lemma_nodes_view(s.update(i, n));
    assert(nodes_view(s.update(i, n)) =~= nodes_view(s).update(i, node_view(n)));
}

/// Places `story_id` at `segments[from..]` below the node whose title path is `parent_path`.
fn insert_story_child(
    children: &mut Vec<StoryNavigationNode>,
    parent_path: &str,
    segments: &Vec<String>,
    from: usize,
    story_id: &str,
)
    requires
        from < segments@.len(),
    ensures
        nodes_view(final(children)@) == insert_path(
            nodes_view(old(children)@),
            Some(parent_path@),
            strings_view(segments@).skip(from as int),
            story_id@,
        ),
    decreases segments@.len() - from,
{
    let ghost segs = strings_view(segments@).skip(from as int);
    let ghost before = nodes_view(children@);
    proof {
        lemma_nodes_view(children@);
    }
    let segment = segments[from].as_str();
    assert(segs[0] == segment@);
    let index = match find_node(children, segment) {
        Some(i) => i,
        None => {
            proof {
                reveal_strlit("/");
                assert("/"@ =~= seq!['/']);
            }
            let title_path = concat3(parent_path, "/", segment);
            let node = StoryNavigationNode {
                segment: segment.to_owned(),
                title_path,
                story_id: None,
                children: Vec::new(),
            };
            proof {
                lemma_nodes_view_push(children@, node);
                assert(nodes_view(node.children@) =~= Seq::<NavNode>::empty());
                assert(node_view(node) == NavNode {
                    segment: segs[0],
                    title_path: child_path(Some(parent_path@), segs[0]),
                    story_id: None,
                    children: Seq::empty(),
                });
            }
            children.push(node);
            assert(nodes_view(children@) == before.push(node_view(node)));
            children.len() - 1
        },
    };
    let ghost base = nodes_view(children@);
    let ghost base_nodes = children@;
    proof {
        let found = find_segment(before, segs[0]);
        if found >= 0 {
            assert(base == before);
            assert(index == found);
        } else {
            assert(base == before.push(
                NavNode {
                    segment: segs[0],
                    title_path: child_path(Some(parent_path@), segs[0]),
                    story_id: None,
                    children: Seq::empty(),
                },
            ));
            assert(index == before.len());
        }
        lemma_nodes_view(children@);
        assert(base[index as int] == node_view(children@[index as int]));
    }
    if from == segments.len() - 1 {
        let mut node = children.remove(index);
        node.story_id = Some(story_id.to_owned());
        children.insert(index, node);
        proof {
            assert(segs.len() == 1);
            assert(children@ =~= base_nodes.update(index as int, node));
            lemma_nodes_view_update(base_nodes, index as int, node);
            assert(node_view(node) == (NavNode { story_id: Some(story_id@), ..base[index as int] }));
        }
    } else {
        let mut node = children.remove(index);
        let path = node.title_path.clone();
        let ghost old_node = node;
        insert_story_child(&mut node.children, path.as_str(), segments, from + 1, story_id);
        children.insert(index, node);
        proof {
            assert(strings_view(segments@).skip(from + 1) =~= segs.drop_first());
            assert(children@ =~= base_nodes.update(index as int, node));
            lemma_nodes_view_update(base_nodes, index as int, node);
            assert(node_view(node) == (NavNode {
                children: insert_path(
                    base[index as int].children,
                    Some(base[index as int].title_path),
                    segs.drop_first(),
                    story_id@,
                ),
                ..base[index as int]
            }));
        }
    }
}

/// Places `story_id` at the path `segments` of the top level of the tree.
fn insert_story_node(children: &mut Vec<StoryNavigationNode>, segments: &Vec<String>, story_id: &str)
    requires
        segments@.len() > 0,
    ensures
        nodes_view(final(children)@) == insert_path(
            nodes_view(old(children)@),
            None,
            strings_view(segments@),
            story_id@,
        ),
{
    let ghost segs = strings_view(segments@);
    let ghost before = nodes_view(children@);
    proof {
        lemma_nodes_view(children@);
    }
    let segment = segments[0].as_str();
    assert(segs[0] == segment@);
    let index = match find_node(children, segment) {
        Some(i) => i,
        None => {
            let title_path = segment.to_owned();
            let node = StoryNavigationNode {
                segment: segment.to_owned(),
                title_path,
                story_id: None,
                children: Vec::new(),
            };
            proof {
                lemma_nodes_view_push(children@, node);
                assert(nodes_view(node.children@) =~= Seq::<NavNode>::empty());
                assert(node_view(node) == NavNode {
                    segment: segs[0],
                    title_path: child_path(None, segs[0]),
                    story_id: None,
                    children: Seq::empty(),
                });
            }
            children.push(node);
            assert(nodes_view(children@) == before.push(node_view(node)));
            children.len() - 1
        },
    };
    let ghost base = nodes_view(children@);
    let ghost base_nodes = children@;
    proof {
        let found = find_segment(before, segs[0]);
        if found >= 0 {
            assert(base == before);
            assert(index == found);
        } else {
            assert(base == before.push(
                NavNode {
                    segment: segs[0],
                    title_path: child_path(None, segs[0]),
                    story_id: None,
                    children: Seq::empty(),
                },
            ));
            assert(index == before.len());
        }
        lemma_nodes_view(children@);
        assert(base[index as int] == node_view(children@[index as int]));
    }
    if segments.len() == 1 {
        let mut node = children.remove(index);
        node.story_id = Some(story_id.to_owned());
        children.insert(index, node);
        proof {
            assert(segs.len() == 1);
            assert(children@ =~= base_nodes.update(index as int, node));
            lemma_nodes_view_update(base_nodes, index as int, node);
            assert(node_view(node) == (NavNode { story_id: Some(story_id@), ..base[index as int] }));
        }
    } else {
        let mut node = children.remove(index);
        let path = node.title_path.clone();
        let ghost old_node = node;
        insert_story_child(&mut node.children, path.as_str(), segments, 1, story_id);
        children.insert(index, node);
        proof {
            assert(strings_view(segments@).skip(1) =~= segs.drop_first());
            assert(children@ =~= base_nodes.update(index as int, node));
            lemma_nodes_view_update(base_nodes, index as int, node);
            assert(node_view(node) == (NavNode {
                children: insert_path(
                    base[index as int].children,
                    Some(base[index as int].title_path),
                    segs.drop_first(),
                    story_id@,
                ),
                ..base[index as int]
            }));
        }
    }
}

/// Folds every story's slash-delimited title into a tree, in the order given.
///
/// Titles are trimmed, split at `/`, and each segment trimmed; empty segments are
/// dropped, and a story whose title has none is left out. A segment reuses the first
/// sibling of the same name, so a node can be both a story and a parent.
pub fn build_story_navigation<T: StoryTreeEntry>(stories: &[T]) -> (r: Vec<StoryNavigationNode>)
    ensures
        nodes_view(r@) == navigation_of(entries_of(stories@)),
{
    let ghost entries = entries_of(stories@);
    let mut nodes: Vec<StoryNavigationNode> = Vec::new();
    proof {
        assert(entries.take(0) =~= Seq::<(Seq<char>, Seq<char>)>::empty());
        assert(nodes_view(nodes@) =~= Seq::<NavNode>::empty());
    }
    let mut i: usize = 0;
    while i < stories.len()
        invariant
            i <= stories@.len(),
            entries == entries_of(stories@),
            entries.len() == stories@.len(),
            nodes_view(nodes@) == navigation_of(entries.take(i as int)),
        decreases stories@.len() - i,
    {
        let story = &stories[i];
        let title = trim_set(story.story_title(), &TrimSet::Whitespace);
        let segments = split_story_title(title.as_str());
        proof {
            assert(entries.take(i + 1).drop_last() =~= entries.take(i as int));
            assert(entries.take(i + 1).last() == (story.id_view(), story.title_view()));
        }
        if segments.len() > 0 {
            insert_story_node(&mut nodes, &segments, story.story_id());
        } else {
            proof {
                assert(strings_view(segments@) =~= Seq::<Seq<char>>::empty());
            }
        }
        i = i + 1;
    }
    proof {
        assert(entries.take(stories@.len() as int) =~= entries);
    }
    nodes
}

/// A segment as titles produce them: not empty, free of `/`, and neither starting nor
/// ending with whitespace (so it is its own trim).
pub open spec fn proper_segment(s: Seq<char>) -> bool {
    &&& s.len() > 0
    &&& !s.contains('/')
    &&& !crate::text::unicode_white_space(s[0])
    &&& !crate::text::unicode_white_space(s.last())
}

/// A tidy node: a proper segment, a story on every leaf, and tidy children.
pub open spec fn tidy_node(n: NavNode) -> bool
    decreases n, 1int,
{
    proper_segment(n.segment) && (n.children.len() == 0 ==> n.story_id is Some) && tidy_nodes(
        n.children,
    )
}

/// Tidy siblings.
pub open spec fn tidy_nodes(nodes: Seq<NavNode>) -> bool
    decreases nodes, 0int,
{
    if nodes.len() == 0 {
        true
    } else {
        tidy_nodes(nodes.subrange(0, nodes.len() - 1)) && tidy_node(nodes[nodes.len() - 1])
    }
}

proof fn lemma_tidy_nodes_pointwise(nodes: Seq<NavNode>)
    ensures
        tidy_nodes(nodes) <==> forall|i: int| 0 <= i < nodes.len() ==> tidy_node(#[trigger] nodes[i]),
    decreases nodes.len(),
{
    if nodes.len() > 0 {
        let init = nodes.subrange(0, nodes.len() - 1);
        lemma_tidy_nodes_pointwise(init);
        assert forall|i: int| 0 <= i < init.len() implies #[trigger] init[i] == nodes[i] by {}
        if forall|i: int| 0 <= i < nodes.len() ==> tidy_node(#[trigger] nodes[i]) {
            assert forall|i: int| 0 <= i < init.len() implies tidy_node(#[trigger] init[i]) by {
                assert(init[i] == nodes[i]);
            }
        }
        if tidy_nodes(nodes) {
            assert forall|i: int| 0 <= i < nodes.len() implies tidy_node(#[trigger] nodes[i]) by {
                if i < init.len() {
                    assert(init[i] == nodes[i]);
                }
            }
        }
    }
}

/// Inserting a story along proper segments keeps a tree tidy.
proof fn lemma_insert_keeps_tidy(
    nodes: Seq<NavNode>,
    parent: Option<Seq<char>>,
    segments: Seq<Seq<char>>,
    id: Seq<char>,
)
    requires
        tidy_nodes(nodes),
        forall|k: int| 0 <= k < segments.len() ==> proper_segment(#[trigger] segments[k]),
    ensures
        tidy_nodes(insert_path(nodes, parent, segments, id)),
        segments.len() > 0 ==> insert_path(nodes, parent, segments, id).len() > 0,
    decreases segments.len(),
{
    if segments.len() == 0 {
        return;
    }
    let segment = segments[0];
    let found = find_segment(nodes, segment);
    let new_node = NavNode {
        segment,
        title_path: child_path(parent, segment),
        story_id: None,
        children: Seq::empty(),
    };
    let base = if found >= 0 {
        nodes
    } else {
        nodes.push(new_node)
    };
    let index = if found >= 0 {
        found
    } else {
        nodes.len() as int
    };
    let node = base[index];
    let result = insert_path(nodes, parent, segments, id);
    lemma_find_segment_from_bounds(nodes, segment, 0);
    lemma_tidy_nodes_pointwise(nodes);
    lemma_tidy_nodes_pointwise(result);
    assert(0 <= index < base.len());
    assert(node.segment == segment);
    assert(tidy_nodes(node.children)) by {
        if found >= 0 {
            assert(tidy_node(nodes[found]));
        } else {
            assert(node.children =~= Seq::<NavNode>::empty());
        }
    }
    let rest = segments.drop_first();
    if segments.len() > 1 {
        assert forall|k: int| 0 <= k < rest.len() implies proper_segment(#[trigger] rest[k]) by {
            assert(rest[k] == segments[k + 1]);
        }
        lemma_insert_keeps_tidy(node.children, Some(node.title_path), rest, id);
    }
    assert(proper_segment(segments[0]));
    assert(tidy_node(result[index]));
    assert forall|i: int| 0 <= i < result.len() implies tidy_node(#[trigger] result[i]) by {
        if i != index {
            assert(result[i] == base[i]);
            assert(i < nodes.len());
            assert(base[i] == nodes[i]);
        }
    }
}

/// The pieces `split_on` yields contain no separator.
proof fn lemma_split_on_free_of_sep(s: Seq<char>, sep: char)
    ensures
        forall|k: int| 0 <= k < split_on(s, sep).len() ==> !(#[trigger] split_on(s, sep)[k]).contains(sep),
    decreases s.len(),
{
    lemma_split_on_nonempty(s, sep);
    if s.len() > 0 {
        lemma_split_on_free_of_sep(s.drop_last(), sep);
        lemma_split_on_nonempty(s.drop_last(), sep);
        let init = split_on(s.drop_last(), sep);
        if s.last() != sep {
            let last = init.last().push(s.last());
            assert forall|k: int| 0 <= k < split_on(s, sep).len() implies !(#[trigger] split_on(s, sep)[k]).contains(sep) by {
                if k == init.len() - 1 {
                    assert(split_on(s, sep)[k] == last);
                    if last.contains(sep) {
                        let j = choose|j: int| 0 <= j < last.len() && last[j] == sep;
                        assert(init.last()[j] == sep);
                        assert(init[init.len() - 1].contains(sep));
                    }
                } else {
                    assert(split_on(s, sep)[k] == init[k]);
                }
            }
        } else {
            assert forall|k: int| 0 <= k < split_on(s, sep).len() implies !(#[trigger] split_on(s, sep)[k]).contains(sep) by {
                if k < init.len() {
                    assert(split_on(s, sep)[k] == init[k]);
                } else {
                    assert(split_on(s, sep)[k] =~= Seq::<char>::empty());
                }
            }
        }
    }
}

/// A non-empty trim of a `/`-free piece is a proper segment.
proof fn lemma_trimmed_piece_proper(p: Seq<char>)
    requires
        !p.contains('/'),
        trimmed(p, TrimSet::Whitespace).len() > 0,
    ensures
        proper_segment(trimmed(p, TrimSet::Whitespace)),
{
    let a = crate::text::lemma_trimmed_start_skip(p, TrimSet::Whitespace);
    let rest = p.skip(a);
    let b = crate::text::lemma_trimmed_end_take(rest, TrimSet::Whitespace);
    let t = rest.take(b);
    assert(trimmed(p, TrimSet::Whitespace) == t);
    assert(t[0] == p[a]);
    assert(t.last() == rest[b - 1]);
    if t.contains('/') {
        let j = choose|j: int| 0 <= j < t.len() && t[j] == '/';
        assert(p[a + j] == '/');
    }
}

/// Every segment of a title is proper.
proof fn lemma_kept_segments_proper(pieces: Seq<Seq<char>>)
    requires
        forall|k: int| 0 <= k < pieces.len() ==> !(#[trigger] pieces[k]).contains('/'),
    ensures
        forall|k: int| 0 <= k < kept_segments(pieces).len() ==> proper_segment(#[trigger] kept_segments(pieces)[k]),
    decreases pieces.len(),
{
    if pieces.len() > 0 {
        let init = pieces.drop_last();
        assert forall|k: int| 0 <= k < init.len() implies !(#[trigger] init[k]).contains('/') by {
            assert(init[k] == pieces[k]);
        }
        lemma_kept_segments_proper(init);
        let t = trimmed(pieces.last(), TrimSet::Whitespace);
        if t.len() > 0 {
            lemma_trimmed_piece_proper(pieces.last());
            let prev = kept_segments(init);
            assert forall|k: int| 0 <= k < kept_segments(pieces).len() implies proper_segment(#[trigger] kept_segments(pieces)[k]) by {
                if k < prev.len() {
                    assert(kept_segments(pieces)[k] == prev[k]);
                }
            }
        }
    }
}

/// Every segment of a title is proper.
proof fn lemma_title_segments_proper(title: Seq<char>)
    ensures
        forall|k: int| 0 <= k < title_segments(title).len() ==> proper_segment(#[trigger] title_segments(title)[k]),
{
    let pieces = split_on(trimmed(title, TrimSet::Whitespace), '/');
    lemma_split_on_free_of_sep(trimmed(title, TrimSet::Whitespace), '/');
    lemma_kept_segments_proper(pieces);
}

/// Every tree the navigation builds is tidy: each segment is non-empty, free of `/` and
/// its own trim, and every leaf opens a story.
pub proof fn lemma_navigation_tidy(entries: Seq<(Seq<char>, Seq<char>)>)
    ensures
        tidy_nodes(navigation_of(entries)),
    decreases entries.len(),
{
    if entries.len() > 0 {
        lemma_navigation_tidy(entries.drop_last());
        lemma_title_segments_proper(entries.last().1);
        lemma_insert_keeps_tidy(
            navigation_of(entries.drop_last()),
            None,
            title_segments(entries.last().1),
            entries.last().0,
        );
    }
}

} // verus!
