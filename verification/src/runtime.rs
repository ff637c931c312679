//! Runtime registry of stories and the sidebar navigation tree built from their titles.
use vstd::prelude::*;

use crate::manifest::{StoryDefinition, StoryDefinitionView, StoryManifest};

verus! {

/// One registered story: its definition and the symbol that renders it.
#[derive(Debug, Clone, PartialEq, Eq)]
pub struct StoryEntry {
    pub definition: StoryDefinition,
    pub renderer_symbol: &'static str,
}

/// One discovered provider: a component that wraps every story.
#[derive(Debug, Clone, PartialEq, Eq)]
pub struct ProviderDefinition {
    pub source_path: String,
    /// The Rust path of the provider component, as `krate::module::Component`.
    pub item_path: String,
    pub wrap_symbol: String,
    /// Ascending wrap order: the lowest order wraps outermost.
    pub order: i32,
}

/// The mathematical content of a [`ProviderDefinition`].
pub struct ProviderDefinitionView {
    pub source_path: Seq<char>,
    pub item_path: Seq<char>,
    pub wrap_symbol: Seq<char>,
    pub order: i32,
}

impl View for ProviderDefinition {
    type V = ProviderDefinitionView;

    open spec fn view(&self) -> ProviderDefinitionView {
        ProviderDefinitionView {
            source_path: self.source_path@,
            item_path: self.item_path@,
            wrap_symbol: self.wrap_symbol@,
            order: self.order,
        }
    }
}

impl ProviderDefinition {
    /// A field-by-field copy with the same content.
    pub fn copy(&self) -> (r: Self)
        ensures
            r@ == self@,
    {
        ProviderDefinition {
            source_path: self.source_path.clone(),
            item_path: self.item_path.clone(),
            wrap_symbol: self.wrap_symbol.clone(),
            order: self.order,
        }
    }
}

/// Anything that can be placed in the navigation tree: an id and a slash-delimited title.
pub trait StoryTreeEntry {
    /// The characters of the route id this entry links to.
    spec fn id_view(&self) -> Seq<char>;

    /// The characters of the slash-delimited title the tree is folded on.
    spec fn title_view(&self) -> Seq<char>;

    fn story_id(&self) -> (r: &str)
        ensures
            r@ == self.id_view(),
    ;

    fn story_title(&self) -> (r: &str)
        ensures
            r@ == self.title_view(),
    ;
}

impl StoryTreeEntry for StoryEntry {
    open spec fn id_view(&self) -> Seq<char> {
        self.definition.id@
    }

    open spec fn title_view(&self) -> Seq<char> {
        self.definition.title@
    }

    fn story_id(&self) -> (r: &str) {
        self.definition.id.as_str()
    }

    fn story_title(&self) -> (r: &str) {
        self.definition.title.as_str()
    }
}

impl<'a, T: StoryTreeEntry + ?Sized> StoryTreeEntry for &'a T {
    open spec fn id_view(&self) -> Seq<char> {
        (**self).id_view()
    }

    open spec fn title_view(&self) -> Seq<char> {
        (**self).title_view()
    }

    fn story_id(&self) -> (r: &str) {
        (**self).story_id()
    }

    fn story_title(&self) -> (r: &str) {
        (**self).story_title()
    }
}

/// The stories registered so far, in registration order.
#[derive(Debug)]
pub struct ShowcaseRegistry {
    stories: Vec<StoryEntry>,
}

impl ShowcaseRegistry {
    /// The registered entries, oldest first.
    pub closed spec fn entries(&self) -> Seq<StoryEntry> {
        self.stories@
    }

    /// Adds one story at the end of the registry.
    pub fn register(&mut self, entry: StoryEntry)
        ensures
            final(self).entries() == old(self).entries().push(entry),
    {
        self.stories.push(entry);
    }

    /// The advisory manifest of every registered story, at schema version 1.
    pub fn manifest(&self) -> (r: StoryManifest)
        ensures
            manifest_of_entries(self.entries(), r),
    {
        let mut manifest = StoryManifest::new(1);
        let mut i: usize = 0;
        while i < self.stories.len()
            invariant
                i <= self.stories@.len(),
                manifest.schema_version == 1,
                manifest.stories@.len() == i,
                forall|k: int|
                    0 <= k < i ==> #[trigger] manifest.stories@[k]@
                        == self.stories@[k].definition@,
            decreases self.stories@.len() - i,
        {
            manifest.add_story(self.stories[i].definition.copy());
            i = i + 1;
        }
        manifest
    }

    /// How many stories are registered.
    pub fn story_count(&self) -> (r: usize)
        ensures
            r == self.entries().len(),
    {
        self.stories.len()
    }
}

impl Default for ShowcaseRegistry {
    fn default() -> (r: Self)
        ensures
            r.entries() == Seq::<StoryEntry>::empty(),
    {
        ShowcaseRegistry { stories: Vec::new() }
    }
}

/// `m` is the manifest `manifest()` gives for a registry holding `entries`.
pub open spec fn manifest_of_entries(entries: Seq<StoryEntry>, m: StoryManifest) -> bool {
    &&& m.schema_version == 1
    &&& m.stories@.len() == entries.len()
    &&& forall|i: int| 0 <= i < m.stories@.len() ==> #[trigger] m.stories@[i]@ == entries[i].definition@
}

/// After registering `entries` one by one into an empty registry (`registries[k + 1]` is
/// `registries[k]` after registering `entries[k]`), the manifest lists every registered
/// definition, in registration order, duplicates kept, as many as `story_count` says.
pub proof fn lemma_manifest_after_registrations(
    registries: Seq<ShowcaseRegistry>,
    entries: Seq<StoryEntry>,
    manifest: StoryManifest,
)
    requires
        registries.len() == entries.len() + 1,
        registries[0].entries() == Seq::<StoryEntry>::empty(),
        forall|k: int|
            0 <= k < entries.len() ==> #[trigger] registries[k + 1].entries() == registries[k].entries().push(
                entries[k],
            ),
        manifest_of_entries(registries.last().entries(), manifest),
    ensures
        registries.last().entries() == entries,
        manifest.schema_version == 1,
        manifest.stories@.len() == entries.len(),
        forall|i: int| 0 <= i < entries.len() ==> #[trigger] manifest.stories@[i]@ == entries[i].definition@,
{
    lemma_registrations_prefix(registries, entries, entries.len() as int);
    assert(entries.take(entries.len() as int) =~= entries);
}

proof fn lemma_registrations_prefix(registries: Seq<ShowcaseRegistry>, entries: Seq<StoryEntry>, n: int)
    requires
        registries.len() == entries.len() + 1,
        0 <= n <= entries.len(),
        registries[0].entries() == Seq::<StoryEntry>::empty(),
        forall|k: int|
            0 <= k < entries.len() ==> #[trigger] registries[k + 1].entries() == registries[k].entries().push(
                entries[k],
            ),
    ensures
        registries[n].entries() == entries.take(n),
    decreases n,
{
    if n == 0 {
        assert(entries.take(0) =~= Seq::<StoryEntry>::empty());
    } else {
        lemma_registrations_prefix(registries, entries, n - 1);
        assert(registries[n].entries() == registries[n - 1].entries().push(entries[n - 1]));
        assert(entries.take(n) =~= entries.take(n - 1).push(entries[n - 1]));
    }
}

} // verus!
