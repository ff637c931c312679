//! Story discovery rules: the symbols derived from item names and the uniqueness of ids.
use vstd::prelude::*;

use crate::manifest::{join_strings, joined, strings_view, StoryDefinition, StoryDefinitionView};
use crate::navigation::opt_view;
use crate::paths::{module_prefix, module_prefix_from_path};
use crate::runtime::{ProviderDefinition, ProviderDefinitionView};
use crate::slug::{slug, slugify_title};
use crate::scaffold::{definitions_view, providers_view};
use crate::text::{concat2, concat3, push_str, str_eq, substring};

verus! {

/// Prefix of the renderer the macros generate for an annotated item.
pub const RENDER_SYMBOL_PREFIX: &'static str = "__dioxus_showcase_render__";

/// Prefix of the story constructor the macros generate for an annotated item.
pub const STORY_SYMBOL_PREFIX: &'static str = "__dioxus_showcase_story__";

/// Prefix of the wrapper the macros generate for a provider.
pub const WRAP_SYMBOL_PREFIX: &'static str = "__dioxus_showcase_wrap__";

/// The first index at or after `from` where `pat` occurs in `s`, or -1.
pub open spec fn index_of_from(s: Seq<char>, pat: Seq<char>, from: int) -> int
    decreases s.len() + 1 - from,
{
    if from < 0 || from + pat.len() > s.len() {
        -1
    } else if s.subrange(from, from + pat.len()) == pat {
        from
    } else {
        index_of_from(s, pat, from + 1)
    }
}

/// `str::replacen(pat, to, 1)`: the first occurrence of `pat` replaced by `to`.
pub open spec fn replace_first(s: Seq<char>, pat: Seq<char>, to: Seq<char>) -> Seq<char> {
    let i = index_of_from(s, pat, 0);
    if i < 0 {
        s
    } else {
        s.subrange(0, i) + to + s.subrange(i + pat.len(), s.len() as int)
    }
}

/// The first index where `pat` occurs in `s`.
fn find_str(s: &str, pat: &str) -> (r: Option<usize>)
    ensures
        match r {
            Some(i) => i + pat@.len() <= s@.len() && index_of_from(s@, pat@, 0) == i,
            None => index_of_from(s@, pat@, 0) == -1,
        },
{
    let n = s.unicode_len();
    let m = pat.unicode_len();
    if m > n {
        return None;
    }
    if m == 0 {
        assert(s@.subrange(0, 0) =~= pat@);
        return Some(0);
    }
    let last = n - m;
    let mut i: usize = 0;
    while i <= last
        invariant
            n == s@.len(),
            m == pat@.len(),
            1 <= m <= n,
            last == n - m,
            i <= last + 1,
            index_of_from(s@, pat@, 0) == index_of_from(s@, pat@, i as int),
        decreases last + 1 - i,
    {
        let window = substring(s, i, i + m);
        if str_eq(window.as_str(), pat) {
            return Some(i);
        }
        i = i + 1;
    }
    None
}

/// `str::replacen(pat, to, 1)`.
pub fn replace_first_occurrence(s: &str, pat: &str, to: &str) -> (r: String)
    ensures
        r@ == replace_first(s@, pat@, to@),
{
    match find_str(s, pat) {
        None => s.to_owned(),
        Some(i) => {
            let n = s.unicode_len();
            let m = pat.unicode_len();
            let head = substring(s, 0, i);
            let tail = substring(s, i + m, n);
            concat3(head.as_str(), to, tail.as_str())
        },
    }
}

/// The renderer symbol the macros generate for a component or story function.
pub fn showcase_renderer_symbol(component_name: &str) -> (r: String)
    ensures
        r@ == RENDER_SYMBOL_PREFIX@ + component_name@,
{
    concat2(RENDER_SYMBOL_PREFIX, component_name)
}

/// The wrapper symbol the macros generate for a provider component.
pub fn showcase_provider_symbol(component_name: &str) -> (r: String)
    ensures
        r@ == WRAP_SYMBOL_PREFIX@ + component_name@,
{
    concat2(WRAP_SYMBOL_PREFIX, component_name)
}

/// The story constructor symbol that goes with a renderer symbol.
pub fn showcase_story_symbol(renderer_symbol: &str) -> (r: String)
    ensures
        r@ == replace_first(renderer_symbol@, RENDER_SYMBOL_PREFIX@, STORY_SYMBOL_PREFIX@),
{
    replace_first_occurrence(renderer_symbol, RENDER_SYMBOL_PREFIX, STORY_SYMBOL_PREFIX)
}

/// Whether a story before index `k` has the id of story `k`.
pub open spec fn id_seen_before(stories: Seq<StoryDefinitionView>, k: int) -> bool {
    exists|j: int| 0 <= j < k && #[trigger] stories[j].id == stories[k].id
}

/// The index of the first story whose id an earlier story already has, searching from
/// `from`; -1 when the ids are distinct.
pub open spec fn first_repeated_id(stories: Seq<StoryDefinitionView>, from: int) -> int
    decreases stories.len() - from,
{
    if from < 0 || from >= stories.len() {
        -1
    } else if id_seen_before(stories, from) {
        from
    } else {
        first_repeated_id(stories, from + 1)
    }
}

/// The error for a repeated id.
pub open spec fn duplicate_id_message(story: StoryDefinitionView) -> Seq<char> {
    "duplicate showcase id '"@ + story.id + "' found for title '"@ + story.title + "'"@
}

fn seen_before(stories: &[StoryDefinition], k: usize) -> (r: bool)
    requires
        k < stories@.len(),
    ensures
        r == id_seen_before(definitions_view(stories@), k as int),
{
    let ghost v = definitions_view(stories@);
    let mut j: usize = 0;
    while j < k
        invariant
            k < stories@.len(),
            v == definitions_view(stories@),
            j <= k,
            forall|x: int| 0 <= x < j ==> v[x].id != v[k as int].id,
        decreases k - j,
    {
        if str_eq(stories[j].id.as_str(), stories[k].id.as_str()) {
            assert(v[j as int].id == v[k as int].id);
            return true;
        }
        j = j + 1;
    }
    false
}

/// Rejects a story list in which two stories share an id, naming the first repeat.
pub fn validate_component_ids(stories: &[StoryDefinition]) -> (r: Result<(), String>)
    ensures
        first_repeated_id(definitions_view(stories@), 0) < 0 ==> r is Ok,
        first_repeated_id(definitions_view(stories@), 0) >= 0 ==> r is Err && r->Err_0@
            == duplicate_id_message(
            definitions_view(stories@)[first_repeated_id(definitions_view(stories@), 0)],
        ),
{
    let ghost v = definitions_view(stories@);
    let mut k: usize = 0;
    while k < stories.len()
        invariant
            v == definitions_view(stories@),
            v.len() == stories@.len(),
            k <= stories@.len(),
            first_repeated_id(v, 0) == first_repeated_id(v, k as int),
        decreases stories@.len() - k,
    {
        if seen_before(stories, k) {
            let story = &stories[k];
            let mut message = concat3(
                "duplicate showcase id '",
                story.id.as_str(),
                "' found for title '",
            );
            push_str(&mut message, story.title.as_str());
            push_str(&mut message, "'");
            assert(v[k as int] == story@);
            return Err(message);
        }
        k = k + 1;
    }
    Ok(())
}


/// Whether story `k` is the first of several stories sharing its id.
pub open spec fn first_of_repeated(stories: Seq<StoryDefinitionView>, k: int) -> bool {
    !id_seen_before(stories, k) && exists|j: int|
        k < j < stories.len() && #[trigger] stories[j].id == stories[k].id
}

/// The ids of `stories[..n]` that more than one story of `stories` claims, each once, in
/// the order they first appear.
pub open spec fn repeated_ids(stories: Seq<StoryDefinitionView>, n: int) -> Seq<Seq<char>>
    decreases n,
{
    if n <= 0 {
        Seq::empty()
    } else {
        let prev = repeated_ids(stories, n - 1);
        if first_of_repeated(stories, n - 1) {
            prev.push(stories[n - 1].id)
        } else {
            prev
        }
    }
}

fn seen_after(stories: &[StoryDefinition], k: usize) -> (r: bool)
    requires
        k < stories@.len(),
    ensures
        r == exists|j: int|
            k < j < stories@.len() && #[trigger] definitions_view(stories@)[j].id
                == definitions_view(stories@)[k as int].id,
{
    let ghost v = definitions_view(stories@);
    let n = stories.len();
    let mut j: usize = k + 1;
    while j < stories.len()
        invariant
            k < stories@.len(),
            v == definitions_view(stories@),
            k < j <= stories@.len(),
            forall|x: int| k < x < j ==> v[x].id != v[k as int].id,
        decreases stories@.len() - j,
    {
        if str_eq(stories[j].id.as_str(), stories[k].id.as_str()) {
            assert(v[j as int].id == v[k as int].id);
            return true;
        }
        j = j + 1;
    }
    false
}

/// The ids that more than one story claims, each listed once, in order of first
/// appearance.
pub fn duplicate_story_ids(stories: &[StoryDefinition]) -> (r: Vec<String>)
    ensures
        crate::manifest::strings_view(r@) == repeated_ids(
            definitions_view(stories@),
            stories@.len() as int,
        ),
{
    let ghost v = definitions_view(stories@);
    let mut out: Vec<String> = Vec::new();
    let mut k: usize = 0;
    proof {
        assert(crate::manifest::strings_view(out@) =~= Seq::<Seq<char>>::empty());
    }
    while k < stories.len()
        invariant
            v == definitions_view(stories@),
            v.len() == stories@.len(),
            k <= stories@.len(),
            crate::manifest::strings_view(out@) == repeated_ids(v, k as int),
        decreases stories@.len() - k,
    {
        if !seen_before(stories, k) && seen_after(stories, k) {
            let id = stories[k].id.clone();
            proof {
                crate::manifest::lemma_strings_view_push(out@, id);
                assert(v[k as int].id == id@);
            }
            out.push(id);
        }
        k = k + 1;
    }
    out
}

/// How one story is named in a duplicate-id diagnostic: `'title' (path)`.
pub open spec fn claimant_text(d: StoryDefinitionView) -> Seq<char> {
    "'"@ + d.title + "' ("@ + d.item_path + ")"@
}

/// The claimant texts of the stories among `stories[..n]` whose id is `id`, in order.
pub open spec fn claimants(stories: Seq<StoryDefinitionView>, id: Seq<char>, n: int) -> Seq<
    Seq<char>,
>
    decreases n,
{
    if n <= 0 {
        Seq::empty()
    } else {
        let prev = claimants(stories, id, n - 1);
        if stories[n - 1].id == id {
            prev.push(claimant_text(stories[n - 1]))
        } else {
            prev
        }
    }
}

/// The diagnostic line of one colliding id.
pub open spec fn duplicate_line(stories: Seq<StoryDefinitionView>, id: Seq<char>) -> Seq<char> {
    "\n  duplicate id '"@ + id + "' claimed by "@ + joined(
        claimants(stories, id, stories.len() as int),
        ", "@,
    )
}

/// The diagnostic lines of `ids[..n]`, in order.
pub open spec fn duplicate_lines(
    ids: Seq<Seq<char>>,
    stories: Seq<StoryDefinitionView>,
    n: int,
) -> Seq<char>
    decreases n,
{
    if n <= 0 {
        Seq::empty()
    } else {
        duplicate_lines(ids, stories, n - 1) + duplicate_line(stories, ids[n - 1])
    }
}

/// The sentence that opens the duplicate-id diagnostic, after the count.
pub const DUPLICATES_HEADLINE: &'static str = " duplicate showcase id(s) found. Story ids come from the title, so two titles that differ only in punctuation or case collide:";

/// The whole duplicate-id diagnostic.
pub open spec fn duplicates_message(ids: Seq<Seq<char>>, stories: Seq<StoryDefinitionView>) -> Seq<
    char,
> {
    crate::format::decimal(ids.len()) + DUPLICATES_HEADLINE@ + duplicate_lines(
        ids,
        stories,
        ids.len() as int,
    )
}

/// Renders one diagnostic line per colliding id, naming every story involved.
pub fn describe_duplicates(duplicates: &[String], stories: &[StoryDefinition]) -> (r: String)
    ensures
        r@ == duplicates_message(
            duplicates@.map_values(|s: String| s@),
            definitions_view(stories@),
        ),
{
    let ghost ids = duplicates@.map_values(|s: String| s@);
    let ghost v = definitions_view(stories@);
    let mut message = String::new();
    crate::format::push_decimal(&mut message, duplicates.len() as u64);
    push_str(&mut message, DUPLICATES_HEADLINE);
    let ghost head = message@;
    let mut i: usize = 0;
    while i < duplicates.len()
        invariant
            ids == duplicates@.map_values(|s: String| s@),
            v == definitions_view(stories@),
            v.len() == stories@.len(),
            i <= duplicates@.len(),
            message@ == head + duplicate_lines(ids, v, i as int),
        decreases duplicates@.len() - i,
    {
        let id = duplicates[i].as_str();
        let mut line = concat3("\n  duplicate id '", id, "' claimed by ");
        let ghost line_head = line@;
        let mut k: usize = 0;
        let mut first = true;
        while k < stories.len()
            invariant
                v == definitions_view(stories@),
                v.len() == stories@.len(),
                k <= stories@.len(),
                first == (claimants(v, id@, k as int).len() == 0),
                line@ == line_head + joined(claimants(v, id@, k as int), ", "@),
            decreases stories@.len() - k,
        {
            let story = &stories[k];
            proof {
                assert(v[k as int] == story@);
            }
            if str_eq(story.id.as_str(), id) {
                let ghost prev = claimants(v, id@, k as int);
                if !first {
                    push_str(&mut line, ", ");
                }
                push_str(&mut line, "'");
                push_str(&mut line, story.title.as_str());
                push_str(&mut line, "' (");
                push_str(&mut line, story.item_path.as_str());
                push_str(&mut line, ")");
                proof {
                    let next = prev.push(claimant_text(story@));
                    assert(next.drop_last() =~= prev);
                    if prev.len() == 0 {
                        assert(joined(prev, ", "@) =~= Seq::<char>::empty());
                    }
                    assert(line@ =~= line_head + joined(next, ", "@));
                }
                first = false;
            }
            k = k + 1;
        }
        push_str(&mut message, line.as_str());
        proof {
            assert(ids[i as int] == id@);
            assert(message@ =~= head + duplicate_lines(ids, v, i + 1));
        }
        i = i + 1;
    }
    message
}


/// The `::`-joined item path of an item named by `segments` below a source file.
pub open spec fn item_path_of(dir: Seq<char>, path: Seq<char>, segments: Seq<Seq<char>>) -> Result<
    Seq<char>,
    Seq<char>,
> {
    match module_prefix(dir, path) {
        Ok(prefix) => Ok(joined(prefix + segments, "::"@)),
        Err(e) => Err(e),
    }
}

/// Renders the `krate::module::item` path of an item of a source file.
pub fn render_module_path(entry_src_dir: &str, path: &str, module_segments: &Vec<String>) -> (r:
    Result<String, String>)
    ensures
        match item_path_of(entry_src_dir@, path@, strings_view(module_segments@)) {
            Ok(p) => r is Ok && r->Ok_0@ == p,
            Err(e) => r is Err && r->Err_0@ == e,
        },
{
    let mut segments = match module_prefix_from_path(entry_src_dir, path) {
        Ok(segments) => segments,
        Err(e) => {
            return Err(e);
        },
    };
    let ghost prefix = strings_view(segments@);
    let mut i: usize = 0;
    while i < module_segments.len()
        invariant
            i <= module_segments@.len(),
            strings_view(segments@) == prefix + strings_view(module_segments@).take(i as int),
        decreases module_segments@.len() - i,
    {
        let segment = module_segments[i].clone();
        proof {
            crate::manifest::lemma_strings_view_push(segments@, segment);
            assert(strings_view(module_segments@).take(i + 1) =~= strings_view(module_segments@).take(
                i as int,
            ).push(segment@));
        }
        segments.push(segment);
        i = i + 1;
    }
    proof {
        assert(strings_view(module_segments@).take(module_segments@.len() as int) =~= strings_view(
            module_segments@,
        ));
    }
    Ok(join_strings(&segments, "::"))
}

/// What the discovery rules read of a story attribute's arguments.
pub struct StoryAttrMeta {
    pub title: Option<String>,
    pub tags: Vec<String>,
}

/// One attribute on a function, with its arguments read both ways the rules may need.
pub struct SourceAttribute {
    /// The last segment of the attribute's path.
    pub last_segment: Option<String>,
    /// The arguments read as those of `#[showcase]`/`#[story]`, or the parser's message.
    pub story_args: Result<StoryAttrMeta, String>,
    /// The wrap order read as the argument of `#[provider]`, or the parser's message.
    pub provider_args: Result<Option<i32>, String>,
}

/// An item of a source file, as far as discovery looks into it.
pub enum SourceItem {
    /// A function and its attributes.
    Function { name: String, attributes: Vec<SourceAttribute> },
    /// A module declared with its items inline.
    InlineModule { name: String, items: Vec<SourceItem> },
    /// Anything else, including a module declared without a body.
    Other,
}

/// The attribute arguments as plain values, as the rules of `crate::meta` take them.
pub open spec fn parsed_items(parsed: Result<Vec<crate::meta::MetaItem>, String>) -> Result<
    Seq<crate::meta::MetaItem>,
    Seq<char>,
> {
    match parsed {
        Ok(items) => Ok(items@),
        Err(e) => Err(e@),
    }
}

/// The error for a story attribute argument that should be a string literal.
pub const EXPECTED_STRING: &'static str = "expected string literal";

/// The error for a `component` argument whose value does not begin with a path (the
/// message of the identifier that a path starts with).
pub const EXPECTED_IDENT: &'static str = "expected identifier";

/// The error for an argument followed by more than a `,`: an unrecognised argument that
/// carries a value, which the argument parser leaves unread, or a value that continues past
/// the literal or path that was read.
pub const EXPECTED_COMMA: &'static str = "expected `,`";

/// Whether an argument value begins with a string literal.
pub open spec fn leads_with_str(e: crate::meta::MetaExpr) -> bool
    decreases e,
{
    match e {
        crate::meta::MetaExpr::Str(_) => true,
        crate::meta::MetaExpr::Compound(head) => leads_with_str(*head),
        _ => false,
    }
}

/// Whether an argument value begins with a path.
pub open spec fn leads_with_path(e: crate::meta::MetaExpr) -> bool
    decreases e,
{
    match e {
        crate::meta::MetaExpr::Path(_) => true,
        crate::meta::MetaExpr::Compound(head) => leads_with_path(*head),
        _ => false,
    }
}

/// The error for a `title` or `name` value that is not a string literal: it stops after
/// the literal it begins with, or has none to begin with.
pub open spec fn string_value_error(e: crate::meta::MetaExpr) -> Seq<char> {
    if leads_with_str(e) {
        EXPECTED_COMMA@
    } else {
        EXPECTED_STRING@
    }
}

/// The error for a `component` value that is not a path: it stops after the path it
/// begins with, or has none to begin with.
pub open spec fn path_value_error(e: crate::meta::MetaExpr) -> Seq<char> {
    if leads_with_path(e) {
        EXPECTED_COMMA@
    } else {
        EXPECTED_IDENT@
    }
}

fn value_leads_with_str(e: &crate::meta::MetaExpr) -> (r: bool)
    ensures
        r == leads_with_str(*e),
    decreases *e,
{
    match e {
        crate::meta::MetaExpr::Str(_) => true,
        crate::meta::MetaExpr::Compound(head) => value_leads_with_str(head),
        _ => false,
    }
}

fn value_leads_with_path(e: &crate::meta::MetaExpr) -> (r: bool)
    ensures
        r == leads_with_path(*e),
    decreases *e,
{
    match e {
        crate::meta::MetaExpr::Path(_) => true,
        crate::meta::MetaExpr::Compound(head) => value_leads_with_path(head),
        _ => false,
    }
}

fn string_value_failure(e: &crate::meta::MetaExpr) -> (r: String)
    ensures
        r@ == string_value_error(*e),
{
    if value_leads_with_str(e) {
        EXPECTED_COMMA.to_owned()
    } else {
        EXPECTED_STRING.to_owned()
    }
}

fn path_value_failure(e: &crate::meta::MetaExpr) -> (r: String)
    ensures
        r@ == path_value_error(*e),
{
    if value_leads_with_path(e) {
        EXPECTED_COMMA.to_owned()
    } else {
        EXPECTED_IDENT.to_owned()
    }
}

/// The error for a `#[story]` attribute that still names its component.
pub const STORY_COMPONENT_REFUSED: &'static str = "story attributes no longer accept component = ...; use title = \"...\"";

/// The error for a `#[story]` attribute that still names its story.
pub const STORY_NAME_REFUSED: &'static str = "story attributes no longer accept name = ...; include the full path in title = \"...\"";

/// The error for a known argument written without `= value`.
pub const EXPECTED_EQUALS: &'static str = "expected `=`";

/// Reads story attribute arguments from the first of `items` on, given the title and tags
/// read so far: `title` and `name` take string literals, `component` a path (refused, like
/// `name`, on `#[story]`), `tags` an array of string literals, each written `key = value`;
/// any other argument is an error unless it is a bare path, which is skipped.
pub open spec fn story_args_fold(
    is_story: bool,
    items: Seq<crate::meta::MetaItem>,
    title: Option<Seq<char>>,
    tags: Seq<Seq<char>>,
) -> Result<(Option<Seq<char>>, Seq<Seq<char>>), Seq<char>>
    decreases items.len(),
{
    if items.len() == 0 {
        Ok((title, tags))
    } else {
        let rest = items.drop_first();
        match items[0] {
            crate::meta::MetaItem::Path { key } => {
                let k = opt_view(key);
                if is_story && k == Some("component"@) {
                    Err(STORY_COMPONENT_REFUSED@)
                } else if is_story && k == Some("name"@) {
                    Err(STORY_NAME_REFUSED@)
                } else if k == Some("title"@) || k == Some("component"@) || k == Some("name"@) || k
                    == Some("tags"@) {
                    Err(EXPECTED_EQUALS@)
                } else {
                    story_args_fold(is_story, rest, title, tags)
                }
            },
            crate::meta::MetaItem::List { key } => {
                let k = opt_view(key);
                if is_story && k == Some("component"@) {
                    Err(STORY_COMPONENT_REFUSED@)
                } else if is_story && k == Some("name"@) {
                    Err(STORY_NAME_REFUSED@)
                } else if k == Some("title"@) || k == Some("component"@) || k == Some("name"@) || k
                    == Some("tags"@) {
                    Err(EXPECTED_EQUALS@)
                } else {
                    Err(EXPECTED_COMMA@)
                }
            },
            crate::meta::MetaItem::NameValue { key, value } => {
                let k = opt_view(key);
                if k == Some("title"@) {
                    match value {
                        crate::meta::MetaExpr::Str(t) => story_args_fold(is_story, rest, Some(t@), tags),
                        _ => Err(string_value_error(value)),
                    }
                } else if k == Some("component"@) {
                    if is_story {
                        Err(STORY_COMPONENT_REFUSED@)
                    } else {
                        match value {
                            crate::meta::MetaExpr::Path(segments) => if segments@.len() == 0 {
                                Err("component path must not be empty"@)
                            } else {
                                story_args_fold(is_story, rest, title, tags)
                            },
                            _ => Err(path_value_error(value)),
                        }
                    }
                } else if k == Some("name"@) {
                    if is_story {
                        Err(STORY_NAME_REFUSED@)
                    } else {
                        match value {
                            crate::meta::MetaExpr::Str(_) => story_args_fold(is_story, rest, title, tags),
                            _ => Err(string_value_error(value)),
                        }
                    }
                } else if k == Some("tags"@) {
                    match tags_of(value) {
                        Ok(ts) => story_args_fold(is_story, rest, title, ts),
                        Err(e) => Err(e),
                    }
                } else {
                    Err(EXPECTED_COMMA@)
                }
            },
        }
    }
}

/// What discovery reads of a `#[showcase]` or `#[story]` attribute: its title and tags, or
/// the first rule its arguments break (or the parser's message).
pub open spec fn story_attr_meta_of(is_story: bool, parsed: Result<Seq<crate::meta::MetaItem>, Seq<char>>) -> Result<
    (Option<Seq<char>>, Seq<Seq<char>>),
    Seq<char>,
> {
    match parsed {
        Err(e) => Err(e),
        Ok(items) => story_args_fold(is_story, items, None, Seq::empty()),
    }
}

fn key_matches(key: &Option<String>, expected: &str) -> (r: bool)
    ensures
        r == (opt_view(*key) == Some(expected@)),
{
    match key {
        Some(k) => str_eq(k.as_str(), expected),
        None => false,
    }
}

/// Reads the arguments of a `#[showcase]` (or, with `is_story`, a `#[story]`) attribute.
pub fn story_attr_meta(is_story: bool, parsed: &Result<Vec<crate::meta::MetaItem>, String>) -> (r: Result<
    StoryAttrMeta,
    String,
>)
    ensures
        match story_attr_meta_of(is_story, parsed_items(*parsed)) {
            Ok((title, tags)) => r is Ok && opt_view(r->Ok_0.title) == title && strings_view(r->Ok_0.tags@)
                == tags,
            Err(e) => r is Err && r->Err_0@ == e,
        },
{
    let items = match parsed {
        Ok(items) => items,
        Err(e) => {
            return Err(e.clone());
        },
    };
    let mut title: Option<String> = None;
    let mut tags: Vec<String> = Vec::new();
    let mut i: usize = 0;
    proof {
        assert(items@.skip(0) =~= items@);
        assert(strings_view(tags@) =~= Seq::<Seq<char>>::empty());
    }
    while i < items.len()
        invariant
            i <= items@.len(),
            *parsed == Ok::<Vec<crate::meta::MetaItem>, String>(*items),
            story_args_fold(is_story, items@, None, Seq::empty()) == story_args_fold(
                is_story,
                items@.skip(i as int),
                opt_view(title),
                strings_view(tags@),
            ),
        decreases items@.len() - i,
    {
        proof {
            assert(items@.skip(i as int).drop_first() =~= items@.skip(i + 1));
            assert(items@.skip(i as int)[0] == items@[i as int]);
        }
        match &items[i] {
            crate::meta::MetaItem::Path { key } | crate::meta::MetaItem::List { key } => {
                let is_list = match &items[i] {
                    crate::meta::MetaItem::List { .. } => true,
                    _ => false,
                };
                if is_story && key_matches(key, "component") {
                    return Err(STORY_COMPONENT_REFUSED.to_owned());
                }
                if is_story && key_matches(key, "name") {
                    return Err(STORY_NAME_REFUSED.to_owned());
                }
                if key_matches(key, "title") || key_matches(key, "component") || key_matches(key, "name")
                    || key_matches(key, "tags") {
                    return Err(EXPECTED_EQUALS.to_owned());
                }
                if is_list {
                    return Err(EXPECTED_COMMA.to_owned());
                }
            },
            crate::meta::MetaItem::NameValue { key, value } => {
                if key_matches(key, "title") {
                    match value {
                        crate::meta::MetaExpr::Str(t) => {
                            title = Some(t.clone());
                        },
                        _ => {
                            return Err(string_value_failure(value));
                        },
                    }
                } else if key_matches(key, "component") {
                    if is_story {
                        return Err(STORY_COMPONENT_REFUSED.to_owned());
                    }
                    match value {
                        crate::meta::MetaExpr::Path(segments) => {
                            if segments.len() == 0 {
                                return Err("component path must not be empty".to_owned());
                            }
                        },
                        _ => {
                            return Err(path_value_failure(value));
                        },
                    }
                } else if key_matches(key, "name") {
                    if is_story {
                        return Err(STORY_NAME_REFUSED.to_owned());
                    }
                    match value {
                        crate::meta::MetaExpr::Str(_) => {},
                        _ => {
                            return Err(string_value_failure(value));
                        },
                    }
                } else if key_matches(key, "tags") {
                    match parse_tags_array(value) {
                        Ok(ts) => {
                            tags = ts;
                        },
                        Err(e) => {
                            return Err(e);
                        },
                    }
                } else {
                    return Err(EXPECTED_COMMA.to_owned());
                }
            },
        }
        i = i + 1;
    }
    proof {
        assert(items@.skip(i as int) =~= Seq::<crate::meta::MetaItem>::empty());
    }
    Ok(StoryAttrMeta { title, tags })
}

/// The wrap order discovery reads off a `#[provider]` attribute: the attribute macro's rules.
pub open spec fn provider_attr_order_of(parsed: Result<Seq<crate::meta::MetaItem>, Seq<char>>) -> Result<
    i32,
    Seq<char>,
> {
    match crate::meta::showcase_meta_of(parsed) {
        Err(e) => Err(e),
        Ok(m) => crate::meta::provider_order_of(m),
    }
}

/// Reads the wrap order of a `#[provider]` attribute (0 when it names none).
pub fn provider_attr_order(parsed: &Result<Vec<crate::meta::MetaItem>, String>) -> (r: Result<
    Option<i32>,
    String,
>)
    ensures
        match provider_attr_order_of(parsed_items(*parsed)) {
            Ok(v) => r == Ok::<Option<i32>, String>(Some(v)),
            Err(e) => r is Err && r->Err_0@ == e,
        },
{
    let meta = match crate::meta::read_showcase_meta(parsed) {
        Ok(m) => m,
        Err(e) => {
            return Err(e);
        },
    };
    match crate::meta::provider_order(&meta) {
        Ok(v) => Ok(Some(v)),
        Err(e) => Err(e),
    }
}

/// Whether an attribute is `#[showcase]` or `#[story]` (by its last path segment).
pub open spec fn is_story_attribute(a: SourceAttribute) -> bool {
    opt_view(a.last_segment) == Some("showcase"@) || opt_view(a.last_segment) == Some("story"@)
}

/// Whether an attribute is `#[provider]` (by its last path segment).
pub open spec fn is_provider_attribute(a: SourceAttribute) -> bool {
    opt_view(a.last_segment) == Some("provider"@)
}

/// The index of the first story attribute at or after `from`, or -1.
pub open spec fn story_attribute_index(attrs: Seq<SourceAttribute>, from: int) -> int
    decreases attrs.len() - from,
{
    if from < 0 || from >= attrs.len() {
        -1
    } else if is_story_attribute(attrs[from]) {
        from
    } else {
        story_attribute_index(attrs, from + 1)
    }
}

/// The index of the first provider attribute at or after `from`, or -1.
pub open spec fn provider_attribute_index(attrs: Seq<SourceAttribute>, from: int) -> int
    decreases attrs.len() - from,
{
    if from < 0 || from >= attrs.len() {
        -1
    } else if is_provider_attribute(attrs[from]) {
        from
    } else {
        provider_attribute_index(attrs, from + 1)
    }
}

/// Where the items being scanned come from.
pub struct ScanContext {
    pub entry_src_dir: Seq<char>,
    pub file_path: Seq<char>,
    pub source_path: Seq<char>,
}

/// The story a function annotated with a story attribute whose arguments read as `meta`
/// contributes.
pub open spec fn story_of_function(
    ctx: ScanContext,
    segments: Seq<Seq<char>>,
    name: Seq<char>,
    meta: StoryAttrMeta,
) -> Result<StoryDefinitionView, Seq<char>> {
    let title = match meta.title {
        Some(t) => t@,
        None => name,
    };
    match item_path_of(ctx.entry_src_dir, ctx.file_path, segments.push(name)) {
        Err(e) => Err(e),
        Ok(path) => Ok(
            StoryDefinitionView {
                id: slug(title),
                title,
                source_path: ctx.source_path,
                item_path: path,
                renderer_symbol: RENDER_SYMBOL_PREFIX@ + name,
                tags: strings_view(meta.tags@),
            },
        ),
    }
}

/// The stories of one item, in source order; the first rule broken gives its error.
pub open spec fn stories_in_item(ctx: ScanContext, segments: Seq<Seq<char>>, item: SourceItem) -> Result<
    Seq<StoryDefinitionView>,
    Seq<char>,
>
    decreases item, 1int,
{
    match item {
        SourceItem::Function { name, attributes } => {
            let k = story_attribute_index(attributes@, 0);
            if k < 0 {
                Ok(Seq::empty())
            } else {
                match attributes@[k].story_args {
                    Err(e) => Err("invalid showcase attribute in "@ + ctx.file_path + ": "@ + e@),
                    Ok(meta) => match story_of_function(ctx, segments, name@, meta) {
                        Ok(d) => Ok(seq![d]),
                        Err(e) => Err(e),
                    },
                }
            }
        },
        SourceItem::InlineModule { name, items } => stories_in_items(
            ctx,
            segments.push(name@),
            items@,
        ),
        SourceItem::Other => Ok(Seq::empty()),
    }
}

/// The stories of a list of items, in source order; the first rule broken gives its error.
pub open spec fn stories_in_items(
    ctx: ScanContext,
    segments: Seq<Seq<char>>,
    items: Seq<SourceItem>,
) -> Result<Seq<StoryDefinitionView>, Seq<char>>
    decreases items, 0int,
{
    if items.len() == 0 {
        Ok(Seq::empty())
    } else {
        match stories_in_items(ctx, segments, items.subrange(0, items.len() - 1)) {
            Err(e) => Err(e),
            Ok(prev) => match stories_in_item(ctx, segments, items[items.len() - 1]) {
                Err(e) => Err(e),
                Ok(more) => Ok(prev + more),
            },
        }
    }
}

fn story_attribute(attrs: &Vec<SourceAttribute>) -> (r: Option<usize>)
    ensures
        match r {
            Some(k) => k < attrs@.len() && story_attribute_index(attrs@, 0) == k,
            None => story_attribute_index(attrs@, 0) == -1,
        },
{
    let mut k: usize = 0;
    while k < attrs.len()
        invariant
            k <= attrs@.len(),
            story_attribute_index(attrs@, 0) == story_attribute_index(attrs@, k as int),
        decreases attrs@.len() - k,
    {
        let is_story = match &attrs[k].last_segment {
            Some(seg) => str_eq(seg.as_str(), "showcase") || str_eq(seg.as_str(), "story"),
            None => false,
        };
        if is_story {
            return Some(k);
        }
        k = k + 1;
    }
    None
}

fn provider_attribute(attrs: &Vec<SourceAttribute>) -> (r: Option<usize>)
    ensures
        match r {
            Some(k) => k < attrs@.len() && provider_attribute_index(attrs@, 0) == k,
            None => provider_attribute_index(attrs@, 0) == -1,
        },
{
    let mut k: usize = 0;
    while k < attrs.len()
        invariant
            k <= attrs@.len(),
            provider_attribute_index(attrs@, 0) == provider_attribute_index(attrs@, k as int),
        decreases attrs@.len() - k,
    {
        let is_provider = match &attrs[k].last_segment {
            Some(seg) => str_eq(seg.as_str(), "provider"),
            None => false,
        };
        if is_provider {
            return Some(k);
        }
        k = k + 1;
    }
    None
}

fn pushed_segment(segments: &Vec<String>, name: &str) -> (r: Vec<String>)
    ensures
        strings_view(r@) == strings_view(segments@).push(name@),
{
    let mut r = crate::text::copy_strings(segments);
    let owned = name.to_owned();
    proof {
        crate::manifest::lemma_strings_view_push(r@, owned);
    }
    r.push(owned);
    r
}

/// Collects the stories of `items`, a file's items below the inline modules `module_segments`,
/// appending them to `out` in source order.
pub fn collect_stories_from_items(
    entry_src_dir: &str,
    file_path: &str,
    source_path: &str,
    module_segments: &Vec<String>,
    items: &Vec<SourceItem>,
    out: &mut Vec<StoryDefinition>,
) -> (r: Result<(), String>)
    ensures
        match stories_in_items(
            ScanContext {
                entry_src_dir: entry_src_dir@,
                file_path: file_path@,
                source_path: source_path@,
            },
            strings_view(module_segments@),
            items@,
        ) {
            Ok(found) => r is Ok && definitions_view(final(out)@) == definitions_view(old(out)@)
                + found,
            Err(e) => r is Err && r->Err_0@ == e,
        },
    decreases items@,
{
    let ghost ctx = ScanContext {
        entry_src_dir: entry_src_dir@,
        file_path: file_path@,
        source_path: source_path@,
    };
    let ghost segs = strings_view(module_segments@);
    let ghost start = definitions_view(out@);
    let mut i: usize = 0;
    proof {
        assert(items@.subrange(0, 0) =~= Seq::<SourceItem>::empty());
        assert(start + Seq::<StoryDefinitionView>::empty() =~= start);
    }
    while i < items.len()
        invariant
            ctx == (ScanContext {
                entry_src_dir: entry_src_dir@,
                file_path: file_path@,
                source_path: source_path@,
            }),
            segs == strings_view(module_segments@),
            i <= items@.len(),
            match stories_in_items(ctx, segs, items@.subrange(0, i as int)) {
                Ok(found) => definitions_view(out@) == start + found,
                Err(_) => false,
            },
        decreases items@.len() - i,
    {
        let ghost before = definitions_view(out@);
        let ghost found_before = stories_in_items(ctx, segs, items@.subrange(0, i as int))->Ok_0;
        proof {
            let next = items@.subrange(0, i + 1);
            assert(next.subrange(0, i as int) =~= items@.subrange(0, i as int));
            assert(next[i as int] == items@[i as int]);
        }
        match &items[i] {
            SourceItem::Function { name, attributes } => {
                match story_attribute(attributes) {
                    None => {
                        proof {
                            assert(found_before + Seq::<StoryDefinitionView>::empty() =~= found_before);
                        }
                    },
                    Some(k) => {
                        match &attributes[k].story_args {
                            Err(e) => {
                                let mut message = concat3("invalid showcase attribute in ", file_path, ": ");
                                push_str(&mut message, e.as_str());
                                proof {
                                    lemma_error_propagates(ctx, segs, items@, i as int);
                                }
                                return Err(message);
                            },
                            Ok(meta) => {
                                let title = match &meta.title {
                                    Some(t) => t.clone(),
                                    None => name.clone(),
                                };
                                let segments = pushed_segment(module_segments, name.as_str());
                                let path = match render_module_path(entry_src_dir, file_path, &segments) {
                                    Ok(p) => p,
                                    Err(e) => {
                                        proof {
                                            lemma_error_propagates(ctx, segs, items@, i as int);
                                        }
                                        return Err(e);
                                    },
                                };
                                let definition = StoryDefinition {
                                    id: slugify_title(title.as_str()),
                                    title,
                                    source_path: source_path.to_owned(),
                                    item_path: path,
                                    renderer_symbol: showcase_renderer_symbol(name.as_str()),
                                    tags: crate::text::copy_strings(&meta.tags),
                                };
                                proof {
                                    assert(definitions_view(out@.push(definition)) =~= before.push(definition@));
                                    assert(found_before + seq![definition@] =~= found_before.push(definition@));
                                }
                                out.push(definition);
                            },
                        }
                    },
                }
            },
            SourceItem::InlineModule { name, items: nested } => {
                let segments = pushed_segment(module_segments, name.as_str());
                proof {
                    assert(decreases_to!(items@ => items@[i as int]));
                }
                match collect_stories_from_items(entry_src_dir, file_path, source_path, &segments, nested, out) {
                    Ok(()) => {
                        proof {
                            assert(definitions_view(out@) =~= start + (found_before + stories_in_items(ctx, segs.push(name@), nested@)->Ok_0));
                        }
                    },
                    Err(e) => {
                        proof {
                            lemma_error_propagates(ctx, segs, items@, i as int);
                        }
                        return Err(e);
                    },
                }
            },
            SourceItem::Other => {
                proof {
                    assert(found_before + Seq::<StoryDefinitionView>::empty() =~= found_before);
                }
            },
        }
        i = i + 1;
    }
    proof {
        assert(items@.subrange(0, items@.len() as int) =~= items@);
    }
    Ok(())
}

/// An error in one item is the error of every list that contains it after error-free items.
proof fn lemma_error_propagates(ctx: ScanContext, segs: Seq<Seq<char>>, items: Seq<SourceItem>, i: int)
    requires
        0 <= i < items.len(),
        stories_in_items(ctx, segs, items.subrange(0, i)) is Ok,
        stories_in_item(ctx, segs, items[i]) is Err,
    ensures
        stories_in_items(ctx, segs, items) == stories_in_item(ctx, segs, items[i]),
    decreases items.len() - i,
{
    let next = items.subrange(0, i + 1);
    assert(next.subrange(0, i) =~= items.subrange(0, i));
    assert(next[i] == items[i]);
    lemma_error_prefix(ctx, segs, items, i + 1);
}

/// Once a prefix of the list fails, every longer prefix fails the same way.
proof fn lemma_error_prefix(ctx: ScanContext, segs: Seq<Seq<char>>, items: Seq<SourceItem>, k: int)
    requires
        0 <= k <= items.len(),
        stories_in_items(ctx, segs, items.subrange(0, k)) is Err,
    ensures
        stories_in_items(ctx, segs, items) == stories_in_items(ctx, segs, items.subrange(0, k)),
    decreases items.len() - k,
{
    if k < items.len() {
        let next = items.subrange(0, k + 1);
        assert(next.subrange(0, k) =~= items.subrange(0, k));
        lemma_error_prefix(ctx, segs, items, k + 1);
    } else {
        assert(items.subrange(0, k) =~= items);
    }
}

/// The provider a function annotated with a provider attribute whose order reads as
/// `order` contributes.
pub open spec fn provider_of_function(
    ctx: ScanContext,
    segments: Seq<Seq<char>>,
    name: Seq<char>,
    order: Option<i32>,
) -> Result<ProviderDefinitionView, Seq<char>> {
    match item_path_of(ctx.entry_src_dir, ctx.file_path, segments.push(name)) {
        Err(e) => Err(e),
        Ok(path) => Ok(
            ProviderDefinitionView {
                source_path: ctx.source_path,
                item_path: path,
                wrap_symbol: WRAP_SYMBOL_PREFIX@ + name,
                order: match order {
                    Some(v) => v,
                    None => 0,
                },
            },
        ),
    }
}

/// The providers of one item, in source order; the first rule broken gives its error.
pub open spec fn providers_in_item(ctx: ScanContext, segments: Seq<Seq<char>>, item: SourceItem) -> Result<
    Seq<ProviderDefinitionView>,
    Seq<char>,
>
    decreases item, 1int,
{
    match item {
        SourceItem::Function { name, attributes } => {
            let k = provider_attribute_index(attributes@, 0);
            if k < 0 {
                Ok(Seq::empty())
            } else {
                match attributes@[k].provider_args {
                    Err(e) => Err("invalid provider attribute in "@ + ctx.file_path + ": "@ + e@),
                    Ok(order) => match provider_of_function(ctx, segments, name@, order) {
                        Ok(d) => Ok(seq![d]),
                        Err(e) => Err(e),
                    },
                }
            }
        },
        SourceItem::InlineModule { name, items } => providers_in_items(
            ctx,
            segments.push(name@),
            items@,
        ),
        SourceItem::Other => Ok(Seq::empty()),
    }
}

/// The providers of a list of items, in source order; the first rule broken gives its error.
pub open spec fn providers_in_items(
    ctx: ScanContext,
    segments: Seq<Seq<char>>,
    items: Seq<SourceItem>,
) -> Result<Seq<ProviderDefinitionView>, Seq<char>>
    decreases items, 0int,
{
    if items.len() == 0 {
        Ok(Seq::empty())
    } else {
        match providers_in_items(ctx, segments, items.subrange(0, items.len() - 1)) {
            Err(e) => Err(e),
            Ok(prev) => match providers_in_item(ctx, segments, items[items.len() - 1]) {
                Err(e) => Err(e),
                Ok(more) => Ok(prev + more),
            },
        }
    }
}

/// Collects the providers of `items`, a file's items below the inline modules `module_segments`,
/// appending them to `out` in source order.
pub fn collect_providers_from_items(
    entry_src_dir: &str,
    file_path: &str,
    source_path: &str,
    module_segments: &Vec<String>,
    items: &Vec<SourceItem>,
    out: &mut Vec<ProviderDefinition>,
) -> (r: Result<(), String>)
    ensures
        match providers_in_items(
            ScanContext {
                entry_src_dir: entry_src_dir@,
                file_path: file_path@,
                source_path: source_path@,
            },
            strings_view(module_segments@),
            items@,
        ) {
            Ok(found) => r is Ok && providers_view(final(out)@) == providers_view(old(out)@)
                + found,
            Err(e) => r is Err && r->Err_0@ == e,
        },
    decreases items@,
{
    let ghost ctx = ScanContext {
        entry_src_dir: entry_src_dir@,
        file_path: file_path@,
        source_path: source_path@,
    };
    let ghost segs = strings_view(module_segments@);
    let ghost start = providers_view(out@);
    let mut i: usize = 0;
    proof {
        assert(items@.subrange(0, 0) =~= Seq::<SourceItem>::empty());
        assert(start + Seq::<ProviderDefinitionView>::empty() =~= start);
    }
    while i < items.len()
        invariant
            ctx == (ScanContext {
                entry_src_dir: entry_src_dir@,
                file_path: file_path@,
                source_path: source_path@,
            }),
            segs == strings_view(module_segments@),
            i <= items@.len(),
            match providers_in_items(ctx, segs, items@.subrange(0, i as int)) {
                Ok(found) => providers_view(out@) == start + found,
                Err(_) => false,
            },
        decreases items@.len() - i,
    {
        let ghost before = providers_view(out@);
        let ghost found_before = providers_in_items(ctx, segs, items@.subrange(0, i as int))->Ok_0;
        proof {
            let next = items@.subrange(0, i + 1);
            assert(next.subrange(0, i as int) =~= items@.subrange(0, i as int));
            assert(next[i as int] == items@[i as int]);
        }
        match &items[i] {
            SourceItem::Function { name, attributes } => {
                match provider_attribute(attributes) {
                    None => {
                        proof {
                            assert(found_before + Seq::<ProviderDefinitionView>::empty() =~= found_before);
                        }
                    },
                    Some(k) => {
                        match &attributes[k].provider_args {
                            Err(e) => {
                                let mut message = concat3("invalid provider attribute in ", file_path, ": ");
                                push_str(&mut message, e.as_str());
                                proof {
                                    lemma_provider_error_propagates(ctx, segs, items@, i as int);
                                }
                                return Err(message);
                            },
                            Ok(order) => {
                                let segments = pushed_segment(module_segments, name.as_str());
                                let path = match render_module_path(entry_src_dir, file_path, &segments) {
                                    Ok(p) => p,
                                    Err(e) => {
                                        proof {
                                            lemma_provider_error_propagates(ctx, segs, items@, i as int);
                                        }
                                        return Err(e);
                                    },
                                };
                                let provider = ProviderDefinition {
                                    source_path: source_path.to_owned(),
                                    item_path: path,
                                    wrap_symbol: showcase_provider_symbol(name.as_str()),
                                    order: match order {
                                        Some(v) => *v,
                                        None => 0,
                                    },
                                };
                                proof {
                                    assert(providers_view(out@.push(provider)) =~= before.push(provider@));
                                    assert(found_before + seq![provider@] =~= found_before.push(provider@));
                                }
                                out.push(provider);
                            },
                        }
                    },
                }
            },
            SourceItem::InlineModule { name, items: nested } => {
                let segments = pushed_segment(module_segments, name.as_str());
                proof {
                    assert(decreases_to!(items@ => items@[i as int]));
                }
                match collect_providers_from_items(entry_src_dir, file_path, source_path, &segments, nested, out) {
                    Ok(()) => {
                        proof {
                            assert(providers_view(out@) =~= start + (found_before + providers_in_items(ctx, segs.push(name@), nested@)->Ok_0));
                        }
                    },
                    Err(e) => {
                        proof {
                            lemma_provider_error_propagates(ctx, segs, items@, i as int);
                        }
                        return Err(e);
                    },
                }
            },
            SourceItem::Other => {
                proof {
                    assert(found_before + Seq::<ProviderDefinitionView>::empty() =~= found_before);
                }
            },
        }
        i = i + 1;
    }
    proof {
        assert(items@.subrange(0, items@.len() as int) =~= items@);
    }
    Ok(())
}

/// An error in one item is the error of every list that contains it after error-free items.
proof fn lemma_provider_error_propagates(ctx: ScanContext, segs: Seq<Seq<char>>, items: Seq<SourceItem>, i: int)
    requires
        0 <= i < items.len(),
        providers_in_items(ctx, segs, items.subrange(0, i)) is Ok,
        providers_in_item(ctx, segs, items[i]) is Err,
    ensures
        providers_in_items(ctx, segs, items) == providers_in_item(ctx, segs, items[i]),
    decreases items.len() - i,
{
    let next = items.subrange(0, i + 1);
    assert(next.subrange(0, i) =~= items.subrange(0, i));
    assert(next[i] == items[i]);
    lemma_provider_error_prefix(ctx, segs, items, i + 1);
}

/// Once a prefix of the list fails, every longer prefix fails the same way.
proof fn lemma_provider_error_prefix(ctx: ScanContext, segs: Seq<Seq<char>>, items: Seq<SourceItem>, k: int)
    requires
        0 <= k <= items.len(),
        providers_in_items(ctx, segs, items.subrange(0, k)) is Err,
    ensures
        providers_in_items(ctx, segs, items) == providers_in_items(ctx, segs, items.subrange(0, k)),
    decreases items.len() - k,
{
    if k < items.len() {
        let next = items.subrange(0, k + 1);
        assert(next.subrange(0, k) =~= items.subrange(0, k));
        lemma_provider_error_prefix(ctx, segs, items, k + 1);
    } else {
        assert(items.subrange(0, k) =~= items);
    }
}


/// The wrap orders of a list of providers.
pub open spec fn provider_orders(providers: Seq<ProviderDefinition>) -> Seq<i32> {
    providers.map_values(|p: ProviderDefinition| p.order)
}

/// Sorts providers by wrap order, keeping the discovery order of equal orders.
pub fn sort_providers_by_order(providers: &[ProviderDefinition]) -> (r: Vec<ProviderDefinition>)
    ensures
        exists|order: Seq<usize>|
            #![trigger crate::sorting::stably_sorted(provider_orders(providers@), order)]
            crate::sorting::is_index_permutation(order, providers@.len())
                && crate::sorting::stably_sorted(provider_orders(providers@), order)
                && providers_view(r@) == order.map_values(|i: usize| providers@[i as int]@),
{
    let mut keys: Vec<i32> = Vec::new();
    let mut i: usize = 0;
    while i < providers.len()
        invariant
            i <= providers@.len(),
            keys@ == provider_orders(providers@).take(i as int),
        decreases providers@.len() - i,
    {
        keys.push(providers[i].order);
        proof {
            assert(provider_orders(providers@).take(i + 1) =~= provider_orders(providers@).take(
                i as int,
            ).push(providers@[i as int].order));
        }
        i = i + 1;
    }
    proof {
        assert(provider_orders(providers@).take(providers@.len() as int) =~= provider_orders(
            providers@,
        ));
    }
    let order = crate::sorting::stable_sort_indices(keys.as_slice());
    let mut out: Vec<ProviderDefinition> = Vec::new();
    let mut j: usize = 0;
    while j < order.len()
        invariant
            crate::sorting::is_index_permutation(order@, providers@.len()),
            j <= order@.len(),
            providers_view(out@) == order@.take(j as int).map_values(
                |i: usize| providers@[i as int]@,
            ),
        decreases order@.len() - j,
    {
        let p = providers[order[j]].copy();
        proof {
            assert(providers_view(out@.push(p)) =~= providers_view(out@).push(p@));
            assert(order@.take(j + 1).map_values(|i: usize| providers@[i as int]@) =~= order@.take(
                j as int,
            ).map_values(|i: usize| providers@[i as int]@).push(providers@[order@[j as int] as int]@));
        }
        out.push(p);
        j = j + 1;
    }
    proof {
        assert(order@.take(order@.len() as int) =~= order@);
    }
    out
}

/// One source file read and parsed for discovery: its path as given, its canonical path
/// (or the error canonicalising it), and its items (or the error reading or parsing it).
pub struct ParsedSourceFile {
    pub path: String,
    pub source_path: Result<String, String>,
    pub items: Result<Vec<SourceItem>, String>,
}

/// The stories of each file in turn; the first error in file order stops the scan.
pub open spec fn stories_in_files(entry_src_dir: Seq<char>, files: Seq<ParsedSourceFile>) -> Result<
    Seq<StoryDefinitionView>,
    Seq<char>,
>
    decreases files.len(),
{
    if files.len() == 0 {
        Ok(Seq::empty())
    } else {
        match stories_in_files(entry_src_dir, files.drop_last()) {
            Err(e) => Err(e),
            Ok(prev) => {
                let f = files.last();
                match f.items {
                    Err(e) => Err(e@),
                    Ok(items) => match f.source_path {
                        Err(e) => Err(e@),
                        Ok(source) => match stories_in_items(
                            ScanContext {
                                entry_src_dir,
                                file_path: f.path@,
                                source_path: source@,
                            },
                            Seq::empty(),
                            items@,
                        ) {
                            Err(e) => Err(e),
                            Ok(found) => Ok(prev + found),
                        },
                    },
                }
            },
        }
    }
}

/// Discovers the annotated stories of the entry crate's source files, in file order.
pub fn discover_components(entry_src_dir: &str, files: &Vec<ParsedSourceFile>) -> (r: Result<
    Vec<StoryDefinition>,
    String,
>)
    ensures
        match stories_in_files(entry_src_dir@, files@) {
            Ok(found) => r is Ok && definitions_view(r->Ok_0@) == found,
            Err(e) => r is Err && r->Err_0@ == e,
        },
{
    let mut components: Vec<StoryDefinition> = Vec::new();
    let no_segments: Vec<String> = Vec::new();
    let mut i: usize = 0;
    proof {
        assert(files@.take(0) =~= Seq::<ParsedSourceFile>::empty());
        assert(definitions_view(components@) =~= Seq::<StoryDefinitionView>::empty());
        assert(strings_view(no_segments@) =~= Seq::<Seq<char>>::empty());
    }
    while i < files.len()
        invariant
            i <= files@.len(),
            strings_view(no_segments@) == Seq::<Seq<char>>::empty(),
            match stories_in_files(entry_src_dir@, files@.take(i as int)) {
                Ok(found) => definitions_view(components@) == found,
                Err(_) => false,
            },
        decreases files@.len() - i,
    {
        let file = &files[i];
        proof {
            assert(files@.take(i + 1).drop_last() =~= files@.take(i as int));
            assert(files@.take(i + 1).last() == *file);
        }
        let items = match &file.items {
            Ok(items) => items,
            Err(e) => {
                proof {
                    lemma_file_error_propagates(entry_src_dir@, files@, i + 1);
                }
                return Err(e.clone());
            },
        };
        let source_path = match &file.source_path {
            Ok(s) => s,
            Err(e) => {
                proof {
                    lemma_file_error_propagates(entry_src_dir@, files@, i + 1);
                }
                return Err(e.clone());
            },
        };
        match collect_stories_from_items(
            entry_src_dir,
            file.path.as_str(),
            source_path.as_str(),
            &no_segments,
            items,
            &mut components,
        ) {
            Ok(()) => {},
            Err(e) => {
                proof {
                    lemma_file_error_propagates(entry_src_dir@, files@, i + 1);
                }
                return Err(e);
            },
        }
        i = i + 1;
    }
    proof {
        assert(files@.take(files@.len() as int) =~= files@);
    }
    Ok(components)
}

proof fn lemma_file_error_propagates(entry_src_dir: Seq<char>, files: Seq<ParsedSourceFile>, k: int)
    requires
        0 <= k <= files.len(),
        stories_in_files(entry_src_dir, files.take(k)) is Err,
    ensures
        stories_in_files(entry_src_dir, files) == stories_in_files(entry_src_dir, files.take(k)),
    decreases files.len() - k,
{
    if k < files.len() {
        assert(files.take(k + 1).drop_last() =~= files.take(k));
        lemma_file_error_propagates(entry_src_dir, files, k + 1);
    } else {
        assert(files.take(k) =~= files);
    }
}

/// The providers of each file in turn; the first error in file order stops the scan.
pub open spec fn providers_in_files(entry_src_dir: Seq<char>, files: Seq<ParsedSourceFile>) -> Result<
    Seq<ProviderDefinitionView>,
    Seq<char>,
>
    decreases files.len(),
{
    if files.len() == 0 {
        Ok(Seq::empty())
    } else {
        match providers_in_files(entry_src_dir, files.drop_last()) {
            Err(e) => Err(e),
            Ok(prev) => {
                let f = files.last();
                match f.items {
                    Err(e) => Err(e@),
                    Ok(items) => match f.source_path {
                        Err(e) => Err(e@),
                        Ok(source) => match providers_in_items(
                            ScanContext {
                                entry_src_dir,
                                file_path: f.path@,
                                source_path: source@,
                            },
                            Seq::empty(),
                            items@,
                        ) {
                            Err(e) => Err(e),
                            Ok(found) => Ok(prev + found),
                        },
                    },
                }
            },
        }
    }
}

/// Collects the providers of the entry crate's source files, in file order.
fn collect_providers_in_files(entry_src_dir: &str, files: &Vec<ParsedSourceFile>) -> (r: Result<
    Vec<ProviderDefinition>,
    String,
>)
    ensures
        match providers_in_files(entry_src_dir@, files@) {
            Ok(found) => r is Ok && providers_view(r->Ok_0@) == found,
            Err(e) => r is Err && r->Err_0@ == e,
        },
{
    let mut providers: Vec<ProviderDefinition> = Vec::new();
    let no_segments: Vec<String> = Vec::new();
    let mut i: usize = 0;
    proof {
        assert(files@.take(0) =~= Seq::<ParsedSourceFile>::empty());
        assert(providers_view(providers@) =~= Seq::<ProviderDefinitionView>::empty());
        assert(strings_view(no_segments@) =~= Seq::<Seq<char>>::empty());
    }
    while i < files.len()
        invariant
            i <= files@.len(),
            strings_view(no_segments@) == Seq::<Seq<char>>::empty(),
            match providers_in_files(entry_src_dir@, files@.take(i as int)) {
                Ok(found) => providers_view(providers@) == found,
                Err(_) => false,
            },
        decreases files@.len() - i,
    {
        let file = &files[i];
        proof {
            assert(files@.take(i + 1).drop_last() =~= files@.take(i as int));
            assert(files@.take(i + 1).last() == *file);
        }
        let items = match &file.items {
            Ok(items) => items,
            Err(e) => {
                proof {
                    lemma_provider_file_error_propagates(entry_src_dir@, files@, i + 1);
                }
                return Err(e.clone());
            },
        };
        let source_path = match &file.source_path {
            Ok(s) => s,
            Err(e) => {
                proof {
                    lemma_provider_file_error_propagates(entry_src_dir@, files@, i + 1);
                }
                return Err(e.clone());
            },
        };
        match collect_providers_from_items(
            entry_src_dir,
            file.path.as_str(),
            source_path.as_str(),
            &no_segments,
            items,
            &mut providers,
        ) {
            Ok(()) => {},
            Err(e) => {
                proof {
                    lemma_provider_file_error_propagates(entry_src_dir@, files@, i + 1);
                }
                return Err(e);
            },
        }
        i = i + 1;
    }
    proof {
        assert(files@.take(files@.len() as int) =~= files@);
    }
    Ok(providers)
}

proof fn lemma_provider_file_error_propagates(entry_src_dir: Seq<char>, files: Seq<ParsedSourceFile>, k: int)
    requires
        0 <= k <= files.len(),
        providers_in_files(entry_src_dir, files.take(k)) is Err,
    ensures
        providers_in_files(entry_src_dir, files) == providers_in_files(entry_src_dir, files.take(k)),
    decreases files.len() - k,
{
    if k < files.len() {
        assert(files.take(k + 1).drop_last() =~= files.take(k));
        lemma_provider_file_error_propagates(entry_src_dir, files, k + 1);
    } else {
        assert(files.take(k) =~= files);
    }
}


/// The wrap orders of a list of provider views.
pub open spec fn view_orders(found: Seq<ProviderDefinitionView>) -> Seq<i32> {
    found.map_values(|p: ProviderDefinitionView| p.order)
}

/// Discovers the providers of the entry crate's source files, sorted by wrap order with
/// ties in file order.
pub fn discover_providers(entry_src_dir: &str, files: &Vec<ParsedSourceFile>) -> (r: Result<
    Vec<ProviderDefinition>,
    String,
>)
    ensures
        match providers_in_files(entry_src_dir@, files@) {
            Ok(found) => r is Ok && exists|order: Seq<usize>|
                #![trigger crate::sorting::stably_sorted(view_orders(found), order)]
                crate::sorting::is_index_permutation(order, found.len())
                    && crate::sorting::stably_sorted(view_orders(found), order)
                    && providers_view(r->Ok_0@) == order.map_values(|i: usize| found[i as int]),
            Err(e) => r is Err && r->Err_0@ == e,
        },
{
    match collect_providers_in_files(entry_src_dir, files) {
        Err(e) => Err(e),
        Ok(providers) => {
            let ghost found = providers_view(providers@);
            let sorted = sort_providers_by_order(providers.as_slice());
            proof {
                assert(view_orders(found) =~= provider_orders(providers@));
                let order = choose|order: Seq<usize>|
                    crate::sorting::is_index_permutation(order, providers@.len())
                        && #[trigger] crate::sorting::stably_sorted(provider_orders(providers@), order)
                        && providers_view(sorted@) == order.map_values(|i: usize| providers@[i as int]@);
                assert(order.map_values(|i: usize| providers@[i as int]@) =~= order.map_values(|i: usize| found[i as int]));
                assert(crate::sorting::stably_sorted(view_orders(found), order));
            }
            Ok(sorted)
        },
    }
}

/// The error for attribute tags that are not an array.
pub const TAGS_NOT_ARRAY: &'static str = "showcase tags must be an array of string literals";

/// The error for an attribute tag that is not a string literal.
pub const TAG_NOT_STRING: &'static str = "showcase tags must contain only string literals";

/// The tags of a `tags = [...]` argument, or the rule it breaks.
pub open spec fn tags_of(expr: crate::meta::MetaExpr) -> Result<Seq<Seq<char>>, Seq<char>> {
    match expr {
        crate::meta::MetaExpr::Array(elems) => match crate::meta::tag_literals(elems@) {
            Some(ts) => Ok(ts),
            None => Err(TAG_NOT_STRING@),
        },
        _ => Err(TAGS_NOT_ARRAY@),
    }
}

/// Reads the `tags = [...]` argument of a story attribute.
pub fn parse_tags_array(expr: &crate::meta::MetaExpr) -> (r: Result<Vec<String>, String>)
    ensures
        match tags_of(*expr) {
            Ok(ts) => r is Ok && strings_view(r->Ok_0@) == ts,
            Err(e) => r is Err && r->Err_0@ == e,
        },
{
    match expr {
        crate::meta::MetaExpr::Array(elems) => match crate::meta::tag_values(elems) {
            Some(ts) => Ok(ts),
            None => Err(TAG_NOT_STRING.to_owned()),
        },
        _ => Err(TAGS_NOT_ARRAY.to_owned()),
    }
}

/// The component named by a path: its last segment.
pub fn component_name_from_path(segments: &Vec<String>) -> (r: Result<String, String>)
    ensures
        segments@.len() > 0 ==> r is Ok && r->Ok_0@ == segments@.last()@,
        segments@.len() == 0 ==> r is Err && r->Err_0@ == "component path must not be empty"@,
{
    if segments.len() == 0 {
        return Err("component path must not be empty".to_owned());
    }
    Ok(segments[segments.len() - 1].clone())
}

} // verus!
