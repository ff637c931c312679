//! What the `#[showcase]`, `#[story]` and `#[provider]` attributes make of their input: the
//! attribute's argument text and the annotated function's text are parsed, and every name,
//! symbol, control plan and error of the expansion is decided here; only writing the
//! generated tokens is left to the macros.
use vstd::prelude::*;

use crate::controls::{
    plan_view, plans_for, provider_props, provider_props_of, story_arg_bindings, story_shape,
    story_shape_of, ControlKind, DefaultAttr, InitialValue, ParamPlan, StoryParam, StoryShape,
};
use crate::discovery::{parsed_items, RENDER_SYMBOL_PREFIX, STORY_SYMBOL_PREFIX, WRAP_SYMBOL_PREFIX};
use crate::manifest::strings_view;
use crate::meta::{
    derive_story_title, parse_showcase_meta, provider_order, provider_order_of, showcase_meta_of,
    showcase_title, story_title_of, ShowcaseMeta, ShowcaseMetaView,
};
use crate::navigation::opt_view;
use crate::rust_source::{
    attribute_meta_items, parse_attribute_args, parse_story_function, path_view, plain_path,
    story_function_of, PathValue, RawAttribute, RawParam, RawType,
};
use crate::slug::{slug, slugify_title};
use crate::text::{concat2, str_eq};

verus! {

/// The prefix of a generated story factory's name.
pub const FACTORY_SYMBOL_PREFIX: &'static str = "__dioxus_showcase_factory__";

/// The prefix of a generated controls component's name.
pub const CONTROLS_SYMBOL_PREFIX: &'static str = "__dioxus_showcase_controls__";

/// The identifier of a parameter's type: the last segment of a path type without a
/// qualified self.
pub open spec fn type_ident_of(ty: RawType) -> Option<Seq<char>> {
    match ty {
        RawType::Path { qualified, last } => if qualified {
            None
        } else {
            opt_view(last)
        },
        RawType::Other => None,
    }
}

/// Whether an attribute is `#[default ...]`, recognised as `Path::is_ident` does.
pub open spec fn is_default_attribute(a: RawAttribute) -> bool {
    plain_path(a) && path_view(a.path) == seq!["default"@]
}

/// The `#[default ...]` attributes of a parameter, in order: well formed when written
/// `#[default = <expression>]`.
pub open spec fn default_attrs_of(attrs: Seq<RawAttribute>) -> Seq<DefaultAttr>
    decreases attrs.len(),
{
    if attrs.len() == 0 {
        Seq::empty()
    } else {
        let prev = default_attrs_of(attrs.drop_last());
        let a = attrs.last();
        if is_default_attribute(a) {
            prev.push(
                match a.path_value {
                    PathValue::NotNameValue => DefaultAttr::Malformed,
                    _ => DefaultAttr::NameValue,
                },
            )
        } else {
            prev
        }
    }
}

/// The rules' reading of one parsed parameter.
pub open spec fn param_converted(raw: RawParam, p: StoryParam) -> bool {
    &&& p.is_receiver == raw.is_receiver
    &&& opt_view(p.ident) == opt_view(raw.pat_ident)
    &&& opt_view(p.ty_ident) == type_ident_of(raw.ty)
    &&& p.defaults@ == default_attrs_of(raw.attributes@)
}

/// The rules' reading of a parsed parameter list.
pub open spec fn params_converted(raw: Seq<RawParam>, params: Seq<StoryParam>) -> bool {
    raw.len() == params.len() && forall|k: int| 0 <= k < raw.len() ==> param_converted(#[trigger] raw[k], params[k])
}

fn is_default(a: &RawAttribute) -> (r: bool)
    ensures
        r == is_default_attribute(*a),
{
    let plain = crate::rust_source::is_plain(a);
    if !plain || a.path.len() != 1 {
        proof {
            if path_view(a.path) == seq!["default"@] {
                assert(path_view(a.path).len() == 1);
            }
        }
        return false;
    }
    let r = str_eq(a.path[0].as_str(), "default");
    proof {
        assert(path_view(a.path)[0] == a.path@[0]@);
        if r {
            assert(path_view(a.path) =~= seq!["default"@]);
        }
    }
    r
}

/// Reads one parsed parameter the way the rules take it.
pub fn story_param(raw: &RawParam) -> (p: StoryParam)
    ensures
        param_converted(*raw, p),
{
    let ty_ident = match &raw.ty {
        RawType::Path { qualified, last } => if *qualified {
            None
        } else {
            match last {
                Some(s) => Some(s.clone()),
                None => None,
            }
        },
        RawType::Other => None,
    };
    let mut defaults: Vec<DefaultAttr> = Vec::new();
    let mut k: usize = 0;
    proof {
        assert(raw.attributes@.take(0) =~= Seq::<RawAttribute>::empty());
    }
    while k < raw.attributes.len()
        invariant
            k <= raw.attributes@.len(),
            defaults@ == default_attrs_of(raw.attributes@.take(k as int)),
        decreases raw.attributes@.len() - k,
    {
        proof {
            assert(raw.attributes@.take(k + 1).drop_last() =~= raw.attributes@.take(k as int));
        }
        if is_default(&raw.attributes[k]) {
            let d = match &raw.attributes[k].path_value {
                PathValue::NotNameValue => DefaultAttr::Malformed,
                _ => DefaultAttr::NameValue,
            };
            defaults.push(d);
        }
        k = k + 1;
    }
    proof {
        assert(raw.attributes@.take(raw.attributes@.len() as int) =~= raw.attributes@);
    }
    StoryParam {
        is_receiver: raw.is_receiver,
        ident: match &raw.pat_ident {
            Some(s) => Some(s.clone()),
            None => None,
        },
        ty_ident,
        defaults,
    }
}

/// Reads a parsed parameter list the way the rules take it.
pub fn story_params(raw: &Vec<RawParam>) -> (r: Vec<StoryParam>)
    ensures
        params_converted(raw@, r@),
{
    let mut out: Vec<StoryParam> = Vec::new();
    let mut k: usize = 0;
    while k < raw.len()
        invariant
            k <= raw@.len(),
            out@.len() == k,
            forall|j: int| 0 <= j < k ==> param_converted(#[trigger] raw@[j], out@[j]),
        decreases raw@.len() - k,
    {
        out.push(story_param(&raw[k]));
        k = k + 1;
    }
    out
}

/// Parses a function's text and reads its name and parameters the way the rules take them.
pub fn story_function(item: &str) -> (r: Result<(String, Vec<StoryParam>), String>)
    ensures
        match story_function_of(item@) {
            Err(e) => r is Err && r->Err_0@ == e,
            Ok(f) => r is Ok && r->Ok_0.0@ == f.name@ && params_converted(f.params@, r->Ok_0.1@),
        },
{
    match parse_story_function(item) {
        Ok(f) => {
            let params = story_params(&f.params);
            Ok((f.name, params))
        },
        Err(e) => Err(e),
    }
}

/// What a story-producing macro decides.
pub struct StoryExpansion {
    /// The annotated function's name.
    pub name: String,
    /// The story title.
    pub title: String,
    /// The story id: the slug of the title.
    pub id: String,
    /// The story tags.
    pub tags: Vec<String>,
    /// The generated renderer's name.
    pub renderer_symbol: String,
    /// The generated story factory's name.
    pub factory_symbol: String,
    /// The generated story constructor's name, which the registration names.
    pub story_symbol: String,
    /// The generated controls component's name.
    pub controls_symbol: String,
    /// Which kind of stories the function produces.
    pub shape: StoryShape,
    /// One plan per parameter when the function takes parameters with controls, else none.
    pub plans: Vec<ParamPlan>,
}

/// The content of a [`StoryExpansion`].
pub struct StoryExpansionView {
    pub name: Seq<char>,
    pub title: Seq<char>,
    pub id: Seq<char>,
    pub tags: Seq<Seq<char>>,
    pub renderer_symbol: Seq<char>,
    pub factory_symbol: Seq<char>,
    pub story_symbol: Seq<char>,
    pub controls_symbol: Seq<char>,
    pub shape: StoryShape,
    pub plans: Seq<(Seq<char>, Option<ControlKind>, InitialValue)>,
}

impl View for StoryExpansion {
    type V = StoryExpansionView;

    open spec fn view(&self) -> StoryExpansionView {
        StoryExpansionView {
            name: self.name@,
            title: self.title@,
            id: self.id@,
            tags: strings_view(self.tags@),
            renderer_symbol: self.renderer_symbol@,
            factory_symbol: self.factory_symbol@,
            story_symbol: self.story_symbol@,
            controls_symbol: self.controls_symbol@,
            shape: self.shape,
            plans: self.plans@.map_values(|p: ParamPlan| plan_view(p)),
        }
    }
}

/// The expansion of a function `name` titled `title`, with its tags, the shape of its
/// parameters and their plans (empty when they are not planned).
pub open spec fn story_expansion_view(
    name: Seq<char>,
    title: Seq<char>,
    tags: Seq<Seq<char>>,
    shape: StoryShape,
    plans: Seq<(Seq<char>, Option<ControlKind>, InitialValue)>,
) -> StoryExpansionView {
    StoryExpansionView {
        name,
        title,
        id: slug(title),
        tags,
        renderer_symbol: RENDER_SYMBOL_PREFIX@ + name,
        factory_symbol: FACTORY_SYMBOL_PREFIX@ + name,
        story_symbol: STORY_SYMBOL_PREFIX@ + name,
        controls_symbol: CONTROLS_SYMBOL_PREFIX@ + name,
        shape,
        plans,
    }
}

/// What `#[showcase]` decides for a function `name` with `params`, given its metadata: the
/// title is the `title` argument or the name; a function with parameters other than a
/// single `props` plans a control per parameter, or fails with the rule it breaks.
pub open spec fn showcase_expansion_of(m: ShowcaseMetaView, name: Seq<char>, params: Seq<StoryParam>) -> Result<
    StoryExpansionView,
    Seq<char>,
> {
    let title = match m.title {
        Some(t) => t,
        None => name,
    };
    let shape = story_shape_of(params);
    if shape == StoryShape::Parameters {
        match plans_for(params, params.len() as int) {
            Err(e) => Err(e),
            Ok(plans) => Ok(story_expansion_view(name, title, m.tags, shape, plans)),
        }
    } else {
        Ok(story_expansion_view(name, title, m.tags, shape, Seq::empty()))
    }
}

/// What `#[story]` decides for a function `name` with `params`, given its metadata: the
/// title comes from `title` (the removed `component` and `name` are errors), and a
/// function with any parameters plans a control per parameter.
pub open spec fn story_expansion_of(m: ShowcaseMetaView, name: Seq<char>, params: Seq<StoryParam>) -> Result<
    StoryExpansionView,
    Seq<char>,
> {
    match story_title_of(m, name) {
        Err(e) => Err(e),
        Ok(title) => {
            let shape = story_shape_of(params);
            if params.len() > 0 {
                match plans_for(params, params.len() as int) {
                    Err(e) => Err(e),
                    Ok(plans) => Ok(story_expansion_view(name, title, m.tags, shape, plans)),
                }
            } else {
                Ok(story_expansion_view(name, title, m.tags, shape, Seq::empty()))
            }
        },
    }
}

/// The expansion of `#[story]` (with `is_story`) or `#[showcase]` whose argument text is
/// `attr` on a function whose text is `item`: the argument rules first, then the function's
/// parse, then the attribute's own rules on the metadata and the parameters as read.
pub open spec fn expansion_result(
    attr: Seq<char>,
    item: Seq<char>,
    r: Result<StoryExpansion, String>,
    is_story: bool,
) -> bool {
    match showcase_meta_of(attribute_meta_items(attr)) {
        Err(e) => r is Err && r->Err_0@ == e,
        Ok(m) => match story_function_of(item) {
            Err(e) => r is Err && r->Err_0@ == e,
            Ok(f) => exists|params: Seq<StoryParam>|
                #![trigger params_converted(f.params@, params)]
                params_converted(f.params@, params) && match (if is_story {
                    story_expansion_of(m, f.name@, params)
                } else {
                    showcase_expansion_of(m, f.name@, params)
                }) {
                    Ok(v) => r is Ok && r->Ok_0@ == v,
                    Err(e) => r is Err && r->Err_0@ == e,
                },
        },
    }
}

fn symbols(name: &str) -> (r: (String, String, String, String))
    ensures
        r.0@ == RENDER_SYMBOL_PREFIX@ + name@,
        r.1@ == FACTORY_SYMBOL_PREFIX@ + name@,
        r.2@ == STORY_SYMBOL_PREFIX@ + name@,
        r.3@ == CONTROLS_SYMBOL_PREFIX@ + name@,
{
    (
        concat2(RENDER_SYMBOL_PREFIX, name),
        concat2(FACTORY_SYMBOL_PREFIX, name),
        concat2(STORY_SYMBOL_PREFIX, name),
        concat2(CONTROLS_SYMBOL_PREFIX, name),
    )
}

/// Parses the text inside a `#[showcase(...)]`, `#[story(...)]` or `#[provider(...)]`
/// attribute's parentheses and applies the shared argument rules to it.
pub fn parse_showcase_meta_text(attr: &str) -> (r: Result<ShowcaseMeta, String>)
    ensures
        match showcase_meta_of(attribute_meta_items(attr@)) {
            Ok(m) => r is Ok && r->Ok_0@ == m,
            Err(e) => r is Err && r->Err_0@ == e,
        },
{
    let parsed = parse_attribute_args(attr);
    proof {
        assert(parsed_items(parsed) == attribute_meta_items(attr@));
    }
    parse_showcase_meta(parsed)
}

/// Decides the expansion of `#[showcase]` from the text inside the attribute's parentheses
/// and the annotated function's text.
pub fn showcase_expansion(attr: &str, item: &str) -> (r: Result<StoryExpansion, String>)
    ensures
        expansion_result(attr@, item@, r, false),
{
    expand_stories(attr, item, false)
}

/// Decides the expansion of `#[story]` from the text inside the attribute's parentheses and
/// the annotated function's text.
pub fn story_expansion(attr: &str, item: &str) -> (r: Result<StoryExpansion, String>)
    ensures
        expansion_result(attr@, item@, r, true),
{
    expand_stories(attr, item, true)
}

fn expand_stories(attr: &str, item: &str, is_story: bool) -> (r: Result<StoryExpansion, String>)
    ensures
        expansion_result(attr@, item@, r, is_story),
{
    let meta = match parse_showcase_meta_text(attr) {
        Ok(m) => m,
        Err(e) => {
            return Err(e);
        },
    };
    let ghost f = story_function_of(item@)->Ok_0;
    let (name, params) = match story_function(item) {
        Ok(read) => read,
        Err(e) => {
            return Err(e);
        },
    };
    let title = if is_story {
        match derive_story_title(&meta, name.as_str()) {
            Ok(t) => t,
            Err(e) => {
                proof {
                    assert(params_converted(f.params@, params@));
                }
                return Err(e);
            },
        }
    } else {
        showcase_title(&meta, name.as_str())
    };
    let shape = story_shape(&params);
    let planned = if is_story {
        params.len() > 0
    } else {
        shape == StoryShape::Parameters
    };
    let plans = if planned {
        match story_arg_bindings(&params) {
            Ok(p) => p,
            Err(e) => {
                proof {
                    assert(params_converted(f.params@, params@));
                }
                return Err(e);
            },
        }
    } else {
        Vec::new()
    };
    let id = slugify_title(title.as_str());
    let (renderer_symbol, factory_symbol, story_symbol, controls_symbol) = symbols(name.as_str());
    let r = StoryExpansion {
        name,
        title,
        id,
        tags: meta.tags,
        renderer_symbol,
        factory_symbol,
        story_symbol,
        controls_symbol,
        shape,
        plans,
    };
    proof {
        assert(params_converted(f.params@, params@));
        assert(r.plans@.map_values(|p: ParamPlan| plan_view(p)) =~= r.plans@.map_values(
            |p: ParamPlan| plan_view(p),
        ));
        if !planned {
            assert(r.plans@.map_values(|p: ParamPlan| plan_view(p)) =~= Seq::<
                (Seq<char>, Option<ControlKind>, InitialValue),
            >::empty());
        }
    }
    Ok(r)
}

/// What `#[provider]` decides.
pub struct ProviderExpansion {
    /// The provider component's name.
    pub name: String,
    /// Its wrapper's symbol.
    pub wrap_symbol: String,
    /// Its wrap order; the lowest wraps outermost.
    pub order: i32,
    /// The props, other than `children`, its wrapper fills with `StoryArg` defaults.
    pub props: Vec<String>,
}

/// What `#[provider]` decides from its argument text `attr` and function text `item`: the
/// argument rules, then the provider rule (only `order`), then the function's parse, then
/// the rules on its parameters.
pub open spec fn provider_expansion_result(attr: Seq<char>, item: Seq<char>, r: Result<ProviderExpansion, String>) -> bool {
    match showcase_meta_of(attribute_meta_items(attr)) {
        Err(e) => r is Err && r->Err_0@ == e,
        Ok(m) => match provider_order_of(m) {
            Err(e) => r is Err && r->Err_0@ == e,
            Ok(order) => match story_function_of(item) {
                Err(e) => r is Err && r->Err_0@ == e,
                Ok(f) => exists|params: Seq<StoryParam>|
                    #![trigger params_converted(f.params@, params)]
                    params_converted(f.params@, params) && match provider_props_of(params) {
                        Ok(props) => r is Ok && r->Ok_0.name@ == f.name@ && r->Ok_0.wrap_symbol@
                            == WRAP_SYMBOL_PREFIX@ + f.name@ && r->Ok_0.order == order && strings_view(
                            r->Ok_0.props@,
                        ) == props,
                        Err(e) => r is Err && r->Err_0@ == e,
                    },
            },
        },
    }
}

/// Decides the expansion of `#[provider]` from the text inside the attribute's parentheses
/// and the annotated function's text.
pub fn provider_expansion(attr: &str, item: &str) -> (r: Result<ProviderExpansion, String>)
    ensures
        provider_expansion_result(attr@, item@, r),
{
    let meta = match parse_showcase_meta_text(attr) {
        Ok(m) => m,
        Err(e) => {
            return Err(e);
        },
    };
    let order = match provider_order(&meta) {
        Ok(o) => o,
        Err(e) => {
            return Err(e);
        },
    };
    let ghost f = story_function_of(item@)->Ok_0;
    let (name, params) = match story_function(item) {
        Ok(read) => read,
        Err(e) => {
            return Err(e);
        },
    };
    proof {
        assert(params_converted(f.params@, params@));
    }
    let props = match provider_props(&params) {
        Ok(p) => p,
        Err(e) => {
            return Err(e);
        },
    };
    let wrap_symbol = concat2(WRAP_SYMBOL_PREFIX, name.as_str());
    Ok(ProviderExpansion { name, wrap_symbol, order, props })
}

proof fn lemma_plans_agree(raw: Seq<RawParam>, a: Seq<StoryParam>, b: Seq<StoryParam>, n: int)
    requires
        params_converted(raw, a),
        params_converted(raw, b),
        0 <= n <= raw.len(),
    ensures
        plans_for(a, n) == plans_for(b, n),
        crate::controls::provider_scan(a, n) == crate::controls::provider_scan(b, n),
    decreases n,
{
    if n > 0 {
        lemma_plans_agree(raw, a, b, n - 1);
        assert(param_converted(raw[n - 1], a[n - 1]));
        assert(param_converted(raw[n - 1], b[n - 1]));
        let pa = a[n - 1];
        let pb = b[n - 1];
        assert(pa.defaults@ == pb.defaults@);
        assert(crate::controls::initial_for(pa) == crate::controls::initial_for(pb));
        assert(crate::controls::plan_for(pa) == crate::controls::plan_for(pb));
    }
}

/// The expansions read only what the parse of a function shows: any two readings of the
/// same parsed parameters give the same `#[showcase]`, `#[story]` and `#[provider]` result,
/// so the contracts of the expansions pin their results down.
pub proof fn lemma_expansions_determined(
    raw: Seq<RawParam>,
    a: Seq<StoryParam>,
    b: Seq<StoryParam>,
    m: ShowcaseMetaView,
    name: Seq<char>,
)
    requires
        params_converted(raw, a),
        params_converted(raw, b),
    ensures
        showcase_expansion_of(m, name, a) == showcase_expansion_of(m, name, b),
        story_expansion_of(m, name, a) == story_expansion_of(m, name, b),
        provider_props_of(a) == provider_props_of(b),
{
    lemma_plans_agree(raw, a, b, raw.len() as int);
    if a.len() > 0 {
        assert(param_converted(raw[0], a[0]));
        assert(param_converted(raw[0], b[0]));
    }
    assert(story_shape_of(a) == story_shape_of(b));
}

} // verus!
