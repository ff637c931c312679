//! The arguments of `#[showcase(...)]`, `#[story(...)]` and `#[provider(...)]`, and the
//! rules the attribute macros apply to them.
use vstd::prelude::*;

use crate::manifest::{strings_view, StoryDefinition, StoryDefinitionView};
use crate::slug::{slug, slugify_title};
use crate::text::{concat2, concat3, str_eq};

verus! {

/// An attribute argument value, as far as the rules look into it.
pub enum MetaExpr {
    /// A string literal, by its value.
    Str(String),
    /// An integer literal, by its base-10 digits.
    Int(String),
    /// Any other literal.
    OtherLit,
    /// A unary negation of an expression.
    Neg(Box<MetaExpr>),
    /// A path, by its segments.
    Path(Vec<String>),
    /// An array of expressions.
    Array(Vec<MetaExpr>),
    /// An expression that begins with another one (a binary operation, a cast, a call, a
    /// method call, a field, an index, `?`, `.await` or a range with a start), by the
    /// expression it begins with.
    Compound(Box<MetaExpr>),
    /// Anything else.
    Other,
}

/// One attribute argument.
pub enum MetaItem {
    /// `key = value`; `key` is the identifier when the key path is a single one.
    NameValue { key: Option<String>, value: MetaExpr },
    /// A bare path, `key`, which the rules skip.
    Path { key: Option<String> },
    /// A list, `key(...)`, which the rules skip.
    List { key: Option<String> },
}

/// The metadata shared by story, showcase and provider attributes.
#[derive(Debug, Clone, PartialEq, Eq)]
pub struct ShowcaseMeta {
    pub title: Option<String>,
    pub component: Option<String>,
    pub name: Option<String>,
    pub tags: Vec<String>,
    pub order: Option<i32>,
}

/// The mathematical content of a [`ShowcaseMeta`].
pub struct ShowcaseMetaView {
    pub title: Option<Seq<char>>,
    pub component: Option<Seq<char>>,
    pub name: Option<Seq<char>>,
    pub tags: Seq<Seq<char>>,
    pub order: Option<i32>,
}

impl View for ShowcaseMeta {
    type V = ShowcaseMetaView;

    open spec fn view(&self) -> ShowcaseMetaView {
        ShowcaseMetaView {
            title: crate::navigation::opt_view(self.title),
            component: crate::navigation::opt_view(self.component),
            name: crate::navigation::opt_view(self.name),
            tags: strings_view(self.tags@),
            order: self.order,
        }
    }
}

impl Default for ShowcaseMeta {
    fn default() -> (r: Self)
        ensures
            r@ == empty_meta(),
    {
        let r = ShowcaseMeta { title: None, component: None, name: None, tags: Vec::new(), order: None };
        assert(r@.tags =~= Seq::<Seq<char>>::empty());
        r
    }
}

/// Metadata with nothing set.
pub open spec fn empty_meta() -> ShowcaseMetaView {
    ShowcaseMetaView { title: None, component: None, name: None, tags: Seq::empty(), order: None }
}

/// The value of a string of ASCII decimal digits.
pub open spec fn digits_value(s: Seq<char>) -> int
    decreases s.len(),
{
    if s.len() == 0 {
        0
    } else {
        digits_value(s.drop_last()) * 10 + (s.last() as int - '0' as int)
    }
}

/// Whether every character is an ASCII decimal digit.
pub open spec fn all_digits(s: Seq<char>) -> bool {
    forall|i: int| 0 <= i < s.len() ==> '0' <= #[trigger] s[i] && s[i] <= '9'
}

/// `str::parse::<i32>`: an optional `+` or `-`, then at least one decimal digit, the
/// value in range.
pub open spec fn parsed_i32(s: Seq<char>) -> Option<i32> {
    let negative = s.len() > 0 && s[0] == '-';
    let body = if s.len() > 0 && (s[0] == '-' || s[0] == '+') {
        s.drop_first()
    } else {
        s
    };
    let value = if negative {
        -digits_value(body)
    } else {
        digits_value(body)
    };
    if body.len() == 0 || !all_digits(body) || value < i32::MIN || value > i32::MAX {
        None
    } else {
        Some(value as i32)
    }
}

proof fn lemma_digits_value_monotone(s: Seq<char>, k: int)
    requires
        all_digits(s),
        0 <= k <= s.len(),
    ensures
        0 <= digits_value(s.take(k)) <= digits_value(s),
    decreases s.len() - k,
{
    if k < s.len() {
        lemma_digits_value_monotone(s, k + 1);
        assert(s.take(k + 1).drop_last() =~= s.take(k));
        assert('0' <= s[k] <= '9');
    } else {
        assert(s.take(k) =~= s);
    }
    lemma_digits_value_nonneg(s);
}

/// A digit string is worth at least any of its prefixes.
pub proof fn lemma_digits_value_bound(s: Seq<char>, k: int)
    requires
        all_digits(s),
        0 <= k <= s.len(),
    ensures
        digits_value(s.take(k)) <= digits_value(s),
{
    lemma_digits_value_monotone(s, k);
}

proof fn lemma_digits_value_nonneg(s: Seq<char>)
    requires
        all_digits(s),
    ensures
        digits_value(s) >= 0,
    decreases s.len(),
{
    if s.len() > 0 {
        assert(all_digits(s.drop_last()));
        lemma_digits_value_nonneg(s.drop_last());
    }
}

/// Parses a decimal integer as `str::parse::<i32>` does.
pub fn parse_i32(s: &str) -> (r: Option<i32>)
    ensures
        r == parsed_i32(s@),
{
    let n = s.unicode_len();
    let negative = n > 0 && s.get_char(0) == '-';
    let start: usize = if n > 0 && (s.get_char(0) == '-' || s.get_char(0) == '+') {
        1
    } else {
        0
    };
    let ghost body = if n > 0 && (s@[0] == '-' || s@[0] == '+') {
        s@.drop_first()
    } else {
        s@
    };
    assert(body =~= s@.skip(start as int));
    if start == n {
        return None;
    }
    let mut value: i64 = 0;
    let mut i: usize = start;
    while i < n
        invariant
            n == s@.len(),
            start <= i <= n,
            start < n,
            start == (if n > 0 && (s@[0] == '-' || s@[0] == '+') {
                1int
            } else {
                0int
            }),
            negative == (n > 0 && s@[0] == '-'),
            body == s@.skip(start as int),
            body == (if n > 0 && (s@[0] == '-' || s@[0] == '+') {
                s@.drop_first()
            } else {
                s@
            }),
            forall|k: int| 0 <= k < i - start ==> '0' <= #[trigger] body[k] && body[k] <= '9',
            value == digits_value(body.take(i - start)),
            0 <= value <= 2147483648,
        decreases n - i,
    {
        let c = s.get_char(i);
        proof {
            assert(body[i - start] == c);
            assert(body.take(i - start + 1).drop_last() =~= body.take(i - start));
            assert(body.take(i - start + 1).last() == c);
        }
        if c < '0' || c > '9' {
            assert(!all_digits(body));
            return None;
        }
        let d = (c as u32 - '0' as u32) as i64;
        let next = value * 10 + d;
        if next > 2147483648 {
            proof {
                if all_digits(body) {
                    lemma_digits_value_monotone(body, i - start + 1);
                    assert(digits_value(body.take(i - start + 1)) == next);
                    assert(digits_value(body) > 2147483648);
                }
            }
            return None;
        }
        value = next;
        i = i + 1;
    }
    proof {
        assert(body.take(n - start) =~= body);
    }
    if negative {
        Some((-value) as i32)
    } else if value > 2147483647 {
        None
    } else {
        Some(value as i32)
    }
}


/// The error for a title that is not a string literal.
pub const TITLE_NOT_STRING: &'static str = "showcase title must be a string literal";

/// The error for a component that is not a path.
pub const COMPONENT_NOT_PATH: &'static str = "showcase component must be a component path";

/// The error for an empty component path.
pub const COMPONENT_PATH_EMPTY: &'static str = "showcase component path must not be empty";

/// The error for a name that is not a string literal.
pub const NAME_NOT_STRING: &'static str = "showcase name must be a string literal";

/// The error for tags that are not an array.
pub const TAGS_NOT_ARRAY: &'static str = "showcase tags must be an array of string literals";

/// The error for a tag that is not a string literal.
pub const TAG_NOT_STRING: &'static str = "showcase tags must contain string literals only";

/// The error for an order that is not an integer literal.
pub const ORDER_NOT_INTEGER: &'static str = "showcase order must be an integer literal";

/// The error for an order outside the range of `i32`.
pub const ORDER_OUT_OF_RANGE: &'static str = "showcase order must fit in i32";

/// The error for the removed `index` spelling, naming its replacement.
pub const INDEX_RENAMED: &'static str = "`index` was renamed to `order` in 0.1.0: write #[provider(order = <integer>)]. The meaning is unchanged \u{2014} providers apply in ascending order and the lowest order wraps outermost.";

/// The prefix of the error for arguments that do not parse at all.
pub const UNPARSEABLE_ARGUMENTS: &'static str = "invalid #[showcase(...)] arguments: ";

/// The value of a string literal.
pub open spec fn str_literal(e: MetaExpr) -> Option<Seq<char>> {
    match e {
        MetaExpr::Str(s) => Some(s@),
        _ => None,
    }
}

/// The values of an array of string literals; `None` when an element is anything else.
pub open spec fn tag_literals(elems: Seq<MetaExpr>) -> Option<Seq<Seq<char>>>
    decreases elems.len(),
{
    if elems.len() == 0 {
        Some(Seq::empty())
    } else {
        match (tag_literals(elems.drop_last()), str_literal(elems.last())) {
            (Some(prev), Some(t)) => Some(prev.push(t)),
            _ => None,
        }
    }
}

/// An `order` value: an integer literal, possibly negated, that fits in `i32`.
pub open spec fn order_value(e: MetaExpr) -> Result<i32, Seq<char>> {
    let (negative, inner) = match e {
        MetaExpr::Neg(b) => (true, *b),
        other => (false, other),
    };
    match inner {
        MetaExpr::Int(digits) => match parsed_i32(
            if negative {
                seq!['-'] + digits@
            } else {
                digits@
            },
        ) {
            Some(v) => Ok(v),
            None => Err(ORDER_OUT_OF_RANGE@),
        },
        _ => Err(ORDER_NOT_INTEGER@),
    }
}

/// The arguments folded into `acc` in order; the first argument breaking a rule gives its
/// error. Unknown keys and arguments that are not `key = value` are skipped.
pub open spec fn meta_fold(items: Seq<MetaItem>, acc: ShowcaseMetaView) -> Result<
    ShowcaseMetaView,
    Seq<char>,
>
    decreases items.len(),
{
    if items.len() == 0 {
        Ok(acc)
    } else {
        let rest = items.drop_first();
        match items[0] {
            MetaItem::Path { .. } => meta_fold(rest, acc),
            MetaItem::List { .. } => meta_fold(rest, acc),
            MetaItem::NameValue { key, value } => {
                let k = crate::navigation::opt_view(key);
                if k == Some("title"@) {
                    match str_literal(value) {
                        Some(t) => meta_fold(rest, ShowcaseMetaView { title: Some(t), ..acc }),
                        None => Err(TITLE_NOT_STRING@),
                    }
                } else if k == Some("component"@) {
                    match value {
                        MetaExpr::Path(segments) => if segments@.len() == 0 {
                            Err(COMPONENT_PATH_EMPTY@)
                        } else {
                            meta_fold(
                                rest,
                                ShowcaseMetaView { component: Some(segments@.last()@), ..acc },
                            )
                        },
                        _ => Err(COMPONENT_NOT_PATH@),
                    }
                } else if k == Some("name"@) {
                    match str_literal(value) {
                        Some(t) => meta_fold(rest, ShowcaseMetaView { name: Some(t), ..acc }),
                        None => Err(NAME_NOT_STRING@),
                    }
                } else if k == Some("tags"@) {
                    match value {
                        MetaExpr::Array(elems) => match tag_literals(elems@) {
                            Some(ts) => meta_fold(rest, ShowcaseMetaView { tags: ts, ..acc }),
                            None => Err(TAG_NOT_STRING@),
                        },
                        _ => Err(TAGS_NOT_ARRAY@),
                    }
                } else if k == Some("order"@) {
                    match order_value(value) {
                        Ok(v) => meta_fold(rest, ShowcaseMetaView { order: Some(v), ..acc }),
                        Err(e) => Err(e),
                    }
                } else if k == Some("index"@) {
                    Err(INDEX_RENAMED@)
                } else {
                    meta_fold(rest, acc)
                }
            },
        }
    }
}

/// What `parse_showcase_meta` makes of attribute arguments that parsed (`Ok`) or did not
/// (`Err` with the parser's message).
pub open spec fn showcase_meta_of(parsed: Result<Seq<MetaItem>, Seq<char>>) -> Result<
    ShowcaseMetaView,
    Seq<char>,
> {
    match parsed {
        Ok(items) => meta_fold(items, empty_meta()),
        Err(e) => Err(UNPARSEABLE_ARGUMENTS@ + e),
    }
}

fn key_is(key: &Option<String>, expected: &str) -> (r: bool)
    ensures
        r == (crate::navigation::opt_view(*key) == Some(expected@)),
{
    match key {
        Some(k) => str_eq(k.as_str(), expected),
        None => false,
    }
}

/// The values of an array of string literals.
pub fn tag_values(elems: &Vec<MetaExpr>) -> (r: Option<Vec<String>>)
    ensures
        match tag_literals(elems@) {
            Some(ts) => r is Some && strings_view(r->0@) == ts,
            None => r is None,
        },
{
    let mut out: Vec<String> = Vec::new();
    let mut i: usize = 0;
    proof {
        assert(elems@.take(0) =~= Seq::<MetaExpr>::empty());
        assert(strings_view(out@) =~= Seq::<Seq<char>>::empty());
    }
    while i < elems.len()
        invariant
            i <= elems@.len(),
            tag_literals(elems@.take(i as int)) == Some(strings_view(out@)),
        decreases elems@.len() - i,
    {
        proof {
            assert(elems@.take(i + 1).drop_last() =~= elems@.take(i as int));
        }
        match &elems[i] {
            MetaExpr::Str(t) => {
                proof {
                    crate::manifest::lemma_strings_view_push(out@, *t);
                }
                out.push(t.clone());
            },
            _ => {
                proof {
                    lemma_tag_literals_none_extends(elems@, i as int + 1);
                }
                return None;
            },
        }
        i = i + 1;
    }
    proof {
        assert(elems@.take(elems@.len() as int) =~= elems@);
    }
    Some(out)
}

proof fn lemma_tag_literals_none_extends(elems: Seq<MetaExpr>, k: int)
    requires
        0 <= k <= elems.len(),
        tag_literals(elems.take(k)) is None,
    ensures
        tag_literals(elems) is None,
    decreases elems.len() - k,
{
    if k < elems.len() {
        assert(elems.take(k + 1).drop_last() =~= elems.take(k));
        lemma_tag_literals_none_extends(elems, k + 1);
    } else {
        assert(elems.take(k) =~= elems);
    }
}

fn parse_order_value(value: &MetaExpr) -> (r: Result<i32, String>)
    ensures
        match order_value(*value) {
            Ok(v) => r == Ok::<i32, String>(v),
            Err(e) => r is Err && r->Err_0@ == e,
        },
{
    let (negative, inner): (bool, &MetaExpr) = match value {
        MetaExpr::Neg(b) => (true, &**b),
        other => (false, other),
    };
    match inner {
        MetaExpr::Int(digits) => {
            let signed = if negative {
                concat2("-", digits.as_str())
            } else {
                digits.clone()
            };
            proof {
                reveal_strlit("-");
                assert("-"@ =~= seq!['-']);
            }
            match parse_i32(signed.as_str()) {
                Some(v) => Ok(v),
                None => Err(ORDER_OUT_OF_RANGE.to_owned()),
            }
        },
        _ => Err(ORDER_NOT_INTEGER.to_owned()),
    }
}

/// Applies the shared attribute rules to the arguments of a story, showcase or provider
/// attribute.
pub fn parse_showcase_meta(parsed: Result<Vec<MetaItem>, String>) -> (r: Result<ShowcaseMeta, String>)
    ensures
        match showcase_meta_of(
            match parsed {
                Ok(items) => Ok(items@),
                Err(e) => Err(e@),
            },
        ) {
            Ok(m) => r is Ok && r->Ok_0@ == m,
            Err(e) => r is Err && r->Err_0@ == e,
        },
{
    read_showcase_meta(&parsed)
}

/// Applies the shared attribute rules to borrowed attribute arguments.
pub fn read_showcase_meta(parsed: &Result<Vec<MetaItem>, String>) -> (r: Result<ShowcaseMeta, String>)
    ensures
        match showcase_meta_of(
            match *parsed {
                Ok(items) => Ok(items@),
                Err(e) => Err(e@),
            },
        ) {
            Ok(m) => r is Ok && r->Ok_0@ == m,
            Err(e) => r is Err && r->Err_0@ == e,
        },
{
    let items = match parsed {
        Ok(items) => items,
        Err(e) => {
            return Err(concat2(UNPARSEABLE_ARGUMENTS, e.as_str()));
        },
    };
    let mut out = ShowcaseMeta::default();
    let mut i: usize = 0;
    proof {
        assert(items@.skip(0) =~= items@);
    }
    while i < items.len()
        invariant
            i <= items@.len(),
            parsed is Ok,
            parsed->Ok_0@ == items@,
            meta_fold(items@, empty_meta()) == meta_fold(items@.skip(i as int), out@),
        decreases items@.len() - i,
    {
        proof {
            assert(items@.skip(i as int).drop_first() =~= items@.skip(i + 1));
            assert(items@.skip(i as int)[0] == items@[i as int]);
        }
        match &items[i] {
            MetaItem::Path { .. } => {},
            MetaItem::List { .. } => {},
            MetaItem::NameValue { key, value } => {
                if key_is(key, "title") {
                    match value {
                        MetaExpr::Str(t) => {
                            out.title = Some(t.clone());
                        },
                        _ => {
                            return Err(TITLE_NOT_STRING.to_owned());
                        },
                    }
                } else if key_is(key, "component") {
                    match value {
                        MetaExpr::Path(segments) => {
                            if segments.len() == 0 {
                                return Err(COMPONENT_PATH_EMPTY.to_owned());
                            }
                            out.component = Some(segments[segments.len() - 1].clone());
                        },
                        _ => {
                            return Err(COMPONENT_NOT_PATH.to_owned());
                        },
                    }
                } else if key_is(key, "name") {
                    match value {
                        MetaExpr::Str(t) => {
                            out.name = Some(t.clone());
                        },
                        _ => {
                            return Err(NAME_NOT_STRING.to_owned());
                        },
                    }
                } else if key_is(key, "tags") {
                    match value {
                        MetaExpr::Array(elems) => match tag_values(elems) {
                            Some(ts) => {
                                out.tags = ts;
                            },
                            None => {
                                return Err(TAG_NOT_STRING.to_owned());
                            },
                        },
                        _ => {
                            return Err(TAGS_NOT_ARRAY.to_owned());
                        },
                    }
                } else if key_is(key, "order") {
                    match parse_order_value(value) {
                        Ok(v) => {
                            out.order = Some(v);
                        },
                        Err(e) => {
                            return Err(e);
                        },
                    }
                } else if key_is(key, "index") {
                    return Err(INDEX_RENAMED.to_owned());
                }
            },
        }
        i = i + 1;
    }
    Ok(out)
}


/// The error for a story attribute that still names its component.
pub const STORY_COMPONENT_REMOVED: &'static str = "#[story(...)] no longer accepts component = ...; use title = \"...\" instead";

/// The error for a story attribute that still names its story.
pub const STORY_NAME_REMOVED: &'static str = "#[story(...)] no longer accepts name = ...; include the full story path in title = \"...\"";

/// The error for a provider attribute with anything but `order`.
pub const PROVIDER_ONLY_ORDER: &'static str = "provider attributes only support order = <integer>";

/// The title a `#[story]` function gets: its `title`, else the function's name; the removed
/// `component` and `name` keys are errors.
pub open spec fn story_title_of(meta: ShowcaseMetaView, fallback: Seq<char>) -> Result<
    Seq<char>,
    Seq<char>,
> {
    if meta.component is Some {
        Err(STORY_COMPONENT_REMOVED@)
    } else if meta.name is Some {
        Err(STORY_NAME_REMOVED@)
    } else {
        match meta.title {
            Some(t) => Ok(t),
            None => Ok(fallback),
        }
    }
}

/// Derives the title of a `#[story]` function from its attribute metadata.
pub fn derive_story_title(story_meta: &ShowcaseMeta, fallback_story_name: &str) -> (r: Result<
    String,
    String,
>)
    ensures
        match story_title_of(story_meta@, fallback_story_name@) {
            Ok(t) => r is Ok && r->Ok_0@ == t,
            Err(e) => r is Err && r->Err_0@ == e,
        },
{
    if story_meta.component.is_some() {
        return Err(STORY_COMPONENT_REMOVED.to_owned());
    }
    if story_meta.name.is_some() {
        return Err(STORY_NAME_REMOVED.to_owned());
    }
    match &story_meta.title {
        Some(title) => Ok(title.clone()),
        None => Ok(fallback_story_name.to_owned()),
    }
}

/// The title of a `#[showcase]` component: its `title`, or the component's name.
pub fn showcase_title(showcase_meta: &ShowcaseMeta, component_name: &str) -> (r: String)
    ensures
        r@ == match showcase_meta.title {
            Some(t) => t@,
            None => component_name@,
        },
{
    match &showcase_meta.title {
        Some(title) => title.clone(),
        None => component_name.to_owned(),
    }
}

/// The wrap order of a `#[provider]`: its `order`, 0 when absent; any other key is an
/// error.
pub open spec fn provider_order_of(meta: ShowcaseMetaView) -> Result<i32, Seq<char>> {
    if meta.title is Some || meta.component is Some || meta.name is Some || meta.tags.len() > 0 {
        Err(PROVIDER_ONLY_ORDER@)
    } else {
        match meta.order {
            Some(v) => Ok(v),
            None => Ok(0),
        }
    }
}

/// Checks a provider's attribute metadata and returns its wrap order.
pub fn provider_order(provider_meta: &ShowcaseMeta) -> (r: Result<i32, String>)
    ensures
        match provider_order_of(provider_meta@) {
            Ok(v) => r == Ok::<i32, String>(v),
            Err(e) => r is Err && r->Err_0@ == e,
        },
{
    if provider_meta.title.is_some() || provider_meta.component.is_some()
        || provider_meta.name.is_some() || provider_meta.tags.len() > 0 {
        return Err(PROVIDER_ONLY_ORDER.to_owned());
    }
    match provider_meta.order {
        Some(v) => Ok(v),
        None => Ok(0),
    }
}

/// The title of a props variant: the component's title, and `/name` when the variant has
/// a non-empty name.
pub open spec fn variant_title_of(title: Seq<char>, name: Option<Seq<char>>) -> Seq<char> {
    match name {
        Some(n) => if n.len() > 0 {
            title + seq!['/'] + n
        } else {
            title
        },
        None => title,
    }
}

/// The story title of one props variant.
pub fn variant_title(title: &str, name: Option<&str>) -> (r: String)
    ensures
        r@ == variant_title_of(
            title@,
            match name {
                Some(n) => Some(n@),
                None => None,
            },
        ),
{
    match name {
        Some(n) => {
            if n.unicode_len() > 0 {
                proof {
                    reveal_strlit("/");
                    assert("/"@ =~= seq!['/']);
                }
                concat3(title, "/", n)
            } else {
                title.to_owned()
            }
        },
        None => title.to_owned(),
    }
}

/// The definition a generated story constructor produces: the id is the slug of the title.
pub fn generated_story_definition(
    title: &str,
    source_path: &str,
    item_path: &str,
    renderer_symbol: &str,
    tags: &Vec<String>,
) -> (r: StoryDefinition)
    ensures
        r@ == (StoryDefinitionView {
            id: slug(title@),
            title: title@,
            source_path: source_path@,
            item_path: item_path@,
            renderer_symbol: renderer_symbol@,
            tags: strings_view(tags@),
        }),
{
    StoryDefinition {
        id: slugify_title(title),
        title: title.to_owned(),
        source_path: source_path.to_owned(),
        item_path: item_path.to_owned(),
        renderer_symbol: renderer_symbol.to_owned(),
        tags: crate::text::copy_strings(tags),
    }
}

} // verus!
