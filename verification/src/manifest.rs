//! The advisory story manifest written next to the generated showcase.
use vstd::prelude::*;

use crate::format::{decimal, push_decimal};
use crate::json::{json_quote, json_string};
use crate::text::{push_char, push_str};

verus! {

/// One discovered story.
#[derive(Debug, Clone, PartialEq, Eq)]
pub struct StoryDefinition {
    pub id: String,
    pub title: String,
    pub source_path: String,
    /// The Rust path of the annotated item, as `krate::module::item`.
    pub item_path: String,
    pub renderer_symbol: String,
    pub tags: Vec<String>,
}

/// The mathematical content of a [`StoryDefinition`].
pub struct StoryDefinitionView {
    pub id: Seq<char>,
    pub title: Seq<char>,
    pub source_path: Seq<char>,
    pub item_path: Seq<char>,
    pub renderer_symbol: Seq<char>,
    pub tags: Seq<Seq<char>>,
}

/// The characters of each string in a sequence of strings.
pub open spec fn strings_view(v: Seq<String>) -> Seq<Seq<char>> {
    v.map_values(|s: String| s@)
}

/// Appending a string appends its characters to the view.
pub proof fn lemma_strings_view_push(v: Seq<String>, s: String)
    ensures
        strings_view(v.push(s)) == strings_view(v).push(s@),
{
    assert(strings_view(v.push(s)) =~= strings_view(v).push(s@));
}

impl View for StoryDefinition {
    type V = StoryDefinitionView;

    open spec fn view(&self) -> StoryDefinitionView {
        StoryDefinitionView {
            id: self.id@,
            title: self.title@,
            source_path: self.source_path@,
            item_path: self.item_path@,
            renderer_symbol: self.renderer_symbol@,
            tags: strings_view(self.tags@),
        }
    }
}

impl StoryDefinition {
    /// A field-by-field copy with the same content.
    pub fn copy(&self) -> (r: Self)
        ensures
            r@ == self@,
    {
        let tags = crate::text::copy_strings(&self.tags);
        let r = StoryDefinition {
            id: self.id.clone(),
            title: self.title.clone(),
            source_path: self.source_path.clone(),
            item_path: self.item_path.clone(),
            renderer_symbol: self.renderer_symbol.clone(),
            tags,
        };
        r
    }
}

/// The schema version of the manifest the build writes.
pub const MANIFEST_SCHEMA_VERSION: u32 = 2;

/// `items` joined with `sep` between consecutive elements.
pub open spec fn joined(items: Seq<Seq<char>>, sep: Seq<char>) -> Seq<char>
    decreases items.len(),
{
    if items.len() == 0 {
        Seq::empty()
    } else if items.len() == 1 {
        items[0]
    } else {
        joined(items.drop_last(), sep) + sep + items.last()
    }
}

/// Joins strings with `sep` between consecutive ones (`[String]::join`).
pub fn join_strings(parts: &Vec<String>, sep: &str) -> (r: String)
    ensures
        r@ == joined(strings_view(parts@), sep@),
{
    let ghost all = strings_view(parts@);
    let mut out = String::new();
    let mut i: usize = 0;
    while i < parts.len()
        invariant
            all == strings_view(parts@),
            i <= parts@.len(),
            out@ == joined(all.take(i as int), sep@),
        decreases parts@.len() - i,
    {
        proof {
            assert(all.take(i + 1).drop_last() =~= all.take(i as int));
            assert(all[i as int] == parts@[i as int]@);
        }
        if i > 0 {
            push_str(&mut out, sep);
        }
        push_str(&mut out, parts[i].as_str());
        proof {
            if i == 0 {
                assert(all.take(1) =~= seq![all[0]]);
                assert(out@ =~= all[0]);
            }
        }
        i = i + 1;
    }
    proof {
        assert(all.take(parts@.len() as int) =~= all);
    }
    out
}

/// A JSON array of string literals.
pub open spec fn json_string_array(items: Seq<Seq<char>>) -> Seq<char> {
    seq!['['] + joined(items.map_values(|t: Seq<char>| json_string(t)), seq![',']) + seq![']']
}

/// The compact JSON object of one story, fields in declaration order.
pub open spec fn story_json(d: StoryDefinitionView) -> Seq<char> {
    "{\"id\":"@ + json_string(d.id) + ",\"title\":"@ + json_string(d.title)
        + ",\"source_path\":"@ + json_string(d.source_path) + ",\"module_path\":"@
        + json_string(d.item_path) + ",\"renderer_symbol\":"@ + json_string(d.renderer_symbol)
        + ",\"tags\":"@ + json_string_array(d.tags) + "}"@
}

/// The compact JSON document of a manifest.
pub open spec fn manifest_json(m: StoryManifestView) -> Seq<char> {
    "{\"schema_version\":"@ + decimal(m.schema_version as nat) + ",\"stories\":["@ + joined(
        m.stories.map_values(|d: StoryDefinitionView| story_json(d)),
        seq![','],
    ) + "]}"@
}

/// The mathematical content of a [`StoryManifest`].
pub struct StoryManifestView {
    pub schema_version: u32,
    pub stories: Seq<StoryDefinitionView>,
}

/// The manifest: a schema version and the stories in the order they were added.
#[derive(Debug, Clone, PartialEq, Eq, Default)]
pub struct StoryManifest {
    pub schema_version: u32,
    pub stories: Vec<StoryDefinition>,
}

impl View for StoryManifest {
    type V = StoryManifestView;

    open spec fn view(&self) -> StoryManifestView {
        StoryManifestView {
            schema_version: self.schema_version,
            stories: self.stories@.map_values(|d: StoryDefinition| d@),
        }
    }
}

/// Appends the JSON array of string literals of `items`.
fn push_json_string_array(out: &mut String, items: &Vec<String>)
    ensures
        final(out)@ == old(out)@ + json_string_array(strings_view(items@)),
{
    let ghost quoted = strings_view(items@).map_values(|t: Seq<char>| json_string(t));
    let ghost start = out@;
    push_char(out, '[');
    let mut i: usize = 0;
    while i < items.len()
        invariant
            i <= items@.len(),
            quoted == strings_view(items@).map_values(|t: Seq<char>| json_string(t)),
            quoted.len() == items@.len(),
            out@ == start + seq!['['] + joined(quoted.take(i as int), seq![',']),
        decreases items@.len() - i,
    {
        proof {
            assert(quoted.take(i + 1).drop_last() =~= quoted.take(i as int));
            assert(quoted[i as int] == json_string(items@[i as int]@));
        }
        if i > 0 {
            push_char(out, ',');
        }
        let q = json_quote(items[i].as_str());
        push_str(out, q.as_str());
        proof {
            if i == 0 {
                assert(quoted.take(1) =~= seq![quoted[0]]);
                assert(start + seq!['['] + joined(quoted.take(0), seq![',']) =~= start + seq!['[']);
            }
        }
        i = i + 1;
    }
    push_char(out, ']');
    proof {
        assert(quoted.take(items@.len() as int) =~= quoted);
    }
}

impl StoryDefinition {
    /// Appends the compact JSON object of this story.
    fn push_json(&self, out: &mut String)
        ensures
            final(out)@ == old(out)@ + story_json(self@),
    {
        push_str(out, "{\"id\":");
        push_str(out, json_quote(self.id.as_str()).as_str());
        push_str(out, ",\"title\":");
        push_str(out, json_quote(self.title.as_str()).as_str());
        push_str(out, ",\"source_path\":");
        push_str(out, json_quote(self.source_path.as_str()).as_str());
        push_str(out, ",\"module_path\":");
        push_str(out, json_quote(self.item_path.as_str()).as_str());
        push_str(out, ",\"renderer_symbol\":");
        push_str(out, json_quote(self.renderer_symbol.as_str()).as_str());
        push_str(out, ",\"tags\":");
        push_json_string_array(out, &self.tags);
        push_str(out, "}");
        proof {
            assert(final(out)@ =~= old(out)@ + story_json(self@));
        }
    }
}

impl StoryManifest {
    /// Creates an empty manifest using the provided schema version.
    pub fn new(schema_version: u32) -> (r: Self)
        ensures
            r.schema_version == schema_version,
            r.stories@ == Seq::<StoryDefinition>::empty(),
    {
        StoryManifest { schema_version, stories: Vec::new() }
    }

    /// Appends a discovered story definition to the manifest.
    pub fn add_story(&mut self, story: StoryDefinition)
        ensures
            final(self).schema_version == old(self).schema_version,
            final(self).stories@ == old(self).stories@.push(story),
    {
        self.stories.push(story);
    }

    /// Serializes the manifest to compact JSON for artifact output.
    pub fn to_json(&self) -> (r: String)
        ensures
            r@ == manifest_json(self@),
    {
        let ghost objects = self@.stories.map_values(|d: StoryDefinitionView| story_json(d));
        let mut out = String::new();
        push_str(&mut out, "{\"schema_version\":");
        push_decimal(&mut out, self.schema_version as u64);
        push_str(&mut out, ",\"stories\":[");
        let ghost start = out@;
        let mut i: usize = 0;
        while i < self.stories.len()
            invariant
                i <= self.stories@.len(),
                objects == self@.stories.map_values(|d: StoryDefinitionView| story_json(d)),
                objects.len() == self.stories@.len(),
                out@ == start + joined(objects.take(i as int), seq![',']),
            decreases self.stories@.len() - i,
        {
            proof {
                assert(objects.take(i + 1).drop_last() =~= objects.take(i as int));
                assert(objects[i as int] == story_json(self.stories@[i as int]@));
            }
            if i > 0 {
                push_str(&mut out, ",");
            }
            self.stories[i].push_json(&mut out);
            proof {
                reveal_strlit(",");
                if i == 0 {
                    assert(objects.take(1) =~= seq![objects[0]]);
                    assert(start + joined(objects.take(0), seq![',']) =~= start);
                } else {
                    assert(start + joined(objects.take(i + 1), seq![','])
                        =~= start + joined(objects.take(i as int), seq![',']) + ","@ + objects[i as int]);
                }
            }
            i = i + 1;
        }
        push_str(&mut out, "]}");
        proof {
            assert(objects.take(self.stories@.len() as int) =~= objects);
        }
        out
    }
}

} // verus!
