//! Rust source files as discovery reads them: the items `syn` parses out of a file's text,
//! the rules that turn them into discovery's items, and the rules that find the files a
//! `mod` declaration names.
use vstd::prelude::*;

use syn::parse::Parser;

use crate::discovery::{
    collect_providers_from_items, collect_stories_from_items, providers_in_items, stories_in_items,
    ScanContext, parsed_items, provider_attr_order, provider_attr_order_of, story_attr_meta, story_attr_meta_of,
    ParsedSourceFile, SourceAttribute, SourceItem,
};
use crate::manifest::{strings_view, StoryDefinition};
use crate::runtime::ProviderDefinition;
use crate::scaffold::{definitions_view, providers_view};
use crate::meta::{MetaExpr, MetaItem};
use crate::navigation::opt_view;
use crate::text::{concat2, push_str, str_eq};

verus! {

/// The value of an attribute read as `#[path = "..."]`.
pub enum PathValue {
    /// The attribute is not written `name = value`.
    NotNameValue,
    /// The value is not a string literal.
    NotStringLiteral,
    /// The string literal's value.
    Str(String),
}

/// One attribute of a parsed item.
pub struct RawAttribute {
    /// The identifiers of the attribute's path, in order.
    pub path: Vec<String>,
    /// Whether the path starts with `::`.
    pub leading_colon: bool,
    /// For each segment of the path, whether it carries generic arguments.
    pub segment_arguments: Vec<bool>,
    /// The arguments inside the attribute's parentheses, or the parser's message (also for
    /// an attribute without parentheses).
    pub args: Result<Vec<MetaItem>, String>,
    /// The attribute's value read as that of `#[path = "..."]`.
    pub path_value: PathValue,
}

/// One item of a parsed file.
pub enum RawItem {
    /// A function, by its name and attributes.
    Function { name: String, attributes: Vec<RawAttribute> },
    /// A module declared with its items inline.
    InlineModule { name: String, items: Vec<RawItem> },
    /// A module declared without a body, whose items live in another file.
    ExternalModule { name: String, attributes: Vec<RawAttribute> },
    /// Any other item.
    Other,
}

/// The items `syn::parse_file` finds in a source text, or its message for a text that is
/// not a Rust file.
pub uninterp spec fn rust_file_items(source: Seq<char>) -> Result<Seq<RawItem>, Seq<char>>;

#[verifier::external_type_specification]
#[verifier::external_body]
pub struct ExSynItem(syn::Item);

#[verifier::external_type_specification]
#[verifier::external_body]
pub struct ExSynAttribute(syn::Attribute);

#[verifier::external_type_specification]
#[verifier::external_body]
pub struct ExSynMeta(syn::Meta);

#[verifier::external_type_specification]
#[verifier::external_body]
pub struct ExSynExpr(syn::Expr);

#[verifier::external_type_specification]
#[verifier::external_body]
pub struct ExSynLit(syn::Lit);

/// `syn::parse_file` on a source text, its items converted one for one.
///
/// Trusted: the result depends on the text alone and is named by `rust_file_items`; the
/// error is the `Display` text of `syn::Error`.
#[verifier::external_body]
pub(crate) fn parse_rust_file(source: &str) -> (r: Result<Vec<RawItem>, String>)
    ensures
        match rust_file_items(source@) {
            Ok(items) => r is Ok && r->Ok_0@ == items,
            Err(e) => r is Err && r->Err_0@ == e,
        },
{
    match syn::parse_file(source) {
        Ok(file) => Ok(raw_items(&file.items)),
        Err(err) => Err(err.to_string()),
    }
}

/// What `Punctuated::<Meta, Comma>::parse_terminated` makes of an attribute's argument
/// text, or its message.
pub uninterp spec fn attribute_meta_items(text: Seq<char>) -> Result<Seq<MetaItem>, Seq<char>>;

/// `Parser::parse_str` of `Punctuated::<Meta, Comma>::parse_terminated` on the text inside
/// an attribute's parentheses, each argument converted one for one.
///
/// Trusted: the result depends on the text alone and is named by `attribute_meta_items`;
/// the error is the `Display` text of `syn::Error`.
#[verifier::external_body]
pub(crate) fn parse_attribute_args(text: &str) -> (r: Result<Vec<MetaItem>, String>)
    ensures
        match attribute_meta_items(text@) {
            Ok(items) => r is Ok && r->Ok_0@ == items,
            Err(e) => r is Err && r->Err_0@ == e,
        },
{
    syn::punctuated::Punctuated::<syn::Meta, syn::token::Comma>::parse_terminated
        .parse_str(text)
        .map(|metas| metas.iter().map(meta_item).collect())
        .map_err(|err| err.to_string())
}

/// The type of a function parameter, as far as the rules look into it.
pub enum RawType {
    /// A path type: whether it has a qualified self (`<T as Trait>::X`), and its last
    /// segment's identifier.
    Path { qualified: bool, last: Option<String> },
    /// Any other type.
    Other,
}

/// One parameter of a parsed function.
pub struct RawParam {
    /// Whether the parameter is `self` in some form.
    pub is_receiver: bool,
    /// The identifier of the parameter's pattern when that is an identifier pattern.
    pub pat_ident: Option<String>,
    /// The parameter's type.
    pub ty: RawType,
    /// The parameter's attributes, in order.
    pub attributes: Vec<RawAttribute>,
}

/// A parsed function: its name and parameters.
pub struct RawFunction {
    pub name: String,
    pub params: Vec<RawParam>,
}

/// What `syn::parse_str::<ItemFn>` makes of a function's text, or its message.
pub uninterp spec fn story_function_of(item: Seq<char>) -> Result<RawFunction, Seq<char>>;

#[verifier::external_type_specification]
#[verifier::external_body]
pub struct ExSynFnArg(syn::FnArg);

#[verifier::external_type_specification]
#[verifier::external_body]
pub struct ExSynType(syn::Type);

/// `syn::parse_str::<ItemFn>` on a function's text, its name and parameters converted one
/// for one.
///
/// Trusted: the result depends on the text alone and is named by `story_function_of`; the
/// error is the `Display` text of `syn::Error`.
#[verifier::external_body]
pub(crate) fn parse_story_function(item: &str) -> (r: Result<RawFunction, String>)
    ensures
        match story_function_of(item@) {
            Ok(f) => r == Ok::<RawFunction, String>(f),
            Err(e) => r is Err && r->Err_0@ == e,
        },
{
    match syn::parse_str::<syn::ItemFn>(item) {
        Ok(f) => Ok(RawFunction { name: f.sig.ident.to_string(), params: f.sig.inputs.iter().map(raw_param).collect() }),
        Err(err) => Err(err.to_string()),
    }
}

/// Converts one parameter (part of `parse_story_function`).
#[verifier::external_body]
fn raw_param(arg: &syn::FnArg) -> RawParam {
    match arg {
        syn::FnArg::Receiver(r) => RawParam {
            is_receiver: true,
            pat_ident: None,
            ty: RawType::Other,
            attributes: r.attrs.iter().map(raw_attribute).collect(),
        },
        syn::FnArg::Typed(t) => RawParam {
            is_receiver: false,
            pat_ident: match &*t.pat { syn::Pat::Ident(p) => Some(p.ident.to_string()), _ => None },
            ty: raw_type(&t.ty),
            attributes: t.attrs.iter().map(raw_attribute).collect(),
        },
    }
}

/// Converts a parameter type (part of `parse_story_function`).
#[verifier::external_body]
fn raw_type(ty: &syn::Type) -> RawType {
    match ty {
        syn::Type::Path(p) => RawType::Path {
            qualified: p.qself.is_some(),
            last: p.path.segments.last().map(|s| s.ident.to_string()),
        },
        _ => RawType::Other,
    }
}

/// Converts parsed items one for one (part of `parse_rust_file`).
#[verifier::external_body]
fn raw_items(items: &[syn::Item]) -> Vec<RawItem> {
    items.iter().map(raw_item).collect()
}

/// Converts one parsed item (part of `parse_rust_file`).
#[verifier::external_body]
fn raw_item(item: &syn::Item) -> RawItem {
    match item {
        syn::Item::Fn(f) => RawItem::Function {
            name: f.sig.ident.to_string(),
            attributes: f.attrs.iter().map(raw_attribute).collect(),
        },
        syn::Item::Mod(m) => match &m.content {
            Some((_, nested)) => RawItem::InlineModule { name: m.ident.to_string(), items: raw_items(nested) },
            None => RawItem::ExternalModule { name: m.ident.to_string(), attributes: m.attrs.iter().map(raw_attribute).collect() },
        },
        _ => RawItem::Other,
    }
}

/// Converts one attribute (part of `parse_rust_file`): its path, arguments and value.
#[verifier::external_body]
fn raw_attribute(attr: &syn::Attribute) -> RawAttribute {
    RawAttribute {
        path: attr.path().segments.iter().map(|s| s.ident.to_string()).collect(),
        leading_colon: attr.path().leading_colon.is_some(),
        segment_arguments: attr.path().segments.iter().map(|s| !s.arguments.is_none()).collect(),
        args: attribute_args(attr),
        path_value: path_value(&attr.meta),
    }
}

/// An attribute's arguments, split at commas by `Punctuated::parse_terminated` through
/// `Attribute::parse_args_with`, which refuses an attribute without parentheses (part of
/// `parse_rust_file`).
#[verifier::external_body]
fn attribute_args(attr: &syn::Attribute) -> Result<Vec<MetaItem>, String> {
    attr.parse_args_with(syn::punctuated::Punctuated::<syn::Meta, syn::token::Comma>::parse_terminated)
        .map(|metas| metas.iter().map(meta_item).collect())
        .map_err(|err| err.to_string())
}

/// An attribute's value read as that of `#[path = "..."]` (part of `parse_rust_file`).
#[verifier::external_body]
fn path_value(meta: &syn::Meta) -> PathValue {
    match meta {
        syn::Meta::NameValue(named) => match &named.value {
            syn::Expr::Lit(syn::ExprLit { lit: syn::Lit::Str(s), .. }) => PathValue::Str(s.value()),
            _ => PathValue::NotStringLiteral,
        },
        _ => PathValue::NotNameValue,
    }
}

/// Converts one attribute argument (part of `parse_rust_file`).
#[verifier::external_body]
fn meta_item(meta: &syn::Meta) -> MetaItem {
    match meta {
        syn::Meta::NameValue(named) => MetaItem::NameValue {
            key: named.path.get_ident().map(|ident| ident.to_string()),
            value: meta_expr(&named.value),
        },
        syn::Meta::Path(path) => MetaItem::Path { key: path.get_ident().map(|ident| ident.to_string()) },
        syn::Meta::List(list) => MetaItem::List { key: list.path.get_ident().map(|ident| ident.to_string()) },
    }
}

/// Converts an argument value (part of `parse_rust_file`).
#[verifier::external_body]
fn meta_expr(expr: &syn::Expr) -> MetaExpr {
    match expr {
        syn::Expr::Lit(lit) => meta_literal(&lit.lit),
        syn::Expr::Unary(u) => match u.op {
            syn::UnOp::Neg(_) => MetaExpr::Neg(Box::new(meta_expr(&u.expr))),
            _ => MetaExpr::Other,
        },
        syn::Expr::Path(p) => MetaExpr::Path(p.path.segments.iter().map(|s| s.ident.to_string()).collect()),
        syn::Expr::Array(a) => MetaExpr::Array(a.elems.iter().map(meta_expr).collect()),
        _ => match expr_head(expr) {
            Some(head) => MetaExpr::Compound(Box::new(meta_expr(head))),
            None => MetaExpr::Other,
        },
    }
}

/// The expression an expression begins with, for the forms that begin with one (part of
/// `parse_rust_file`).
#[verifier::external_body]
fn expr_head(expr: &syn::Expr) -> Option<&syn::Expr> {
    match expr {
        syn::Expr::Binary(b) => Some(&b.left),
        syn::Expr::Cast(c) => Some(&c.expr),
        syn::Expr::Call(c) => Some(&c.func),
        syn::Expr::MethodCall(m) => Some(&m.receiver),
        syn::Expr::Field(f) => Some(&f.base),
        syn::Expr::Index(i) => Some(&i.expr),
        syn::Expr::Try(t) => Some(&t.expr),
        syn::Expr::Await(a) => Some(&a.base),
        syn::Expr::Range(r) => r.start.as_deref(),
        _ => None,
    }
}

/// Converts a literal argument value (part of `parse_rust_file`).
#[verifier::external_body]
fn meta_literal(lit: &syn::Lit) -> MetaExpr {
    match lit {
        syn::Lit::Str(s) => MetaExpr::Str(s.value()),
        syn::Lit::Int(i) => MetaExpr::Int(i.base10_digits().to_owned()),
        _ => MetaExpr::OtherLit,
    }
}

/// Whether an attribute path is written as `Path::is_ident` accepts it: no leading `::` and
/// no generic arguments.
pub open spec fn plain_path(raw: RawAttribute) -> bool {
    !raw.leading_colon && forall|k: int| 0 <= k < raw.segment_arguments@.len() ==> !#[trigger] raw.segment_arguments@[k]
}

/// Whether an attribute path is plain, as `plain_path` says.
pub fn is_plain(raw: &RawAttribute) -> (r: bool)
    ensures
        r == plain_path(*raw),
{
    if raw.leading_colon {
        return false;
    }
    let mut k: usize = 0;
    while k < raw.segment_arguments.len()
        invariant
            k <= raw.segment_arguments@.len(),
            forall|j: int| 0 <= j < k ==> !#[trigger] raw.segment_arguments@[j],
        decreases raw.segment_arguments@.len() - k,
    {
        if raw.segment_arguments[k] {
            return false;
        }
        k = k + 1;
    }
    true
}

/// The views of a list of strings taken from an attribute path.
pub open spec fn path_view(path: Vec<String>) -> Seq<Seq<char>> {
    strings_view(path@)
}

/// The last identifier of an attribute path.
pub open spec fn last_segment_of(path: Seq<Seq<char>>) -> Option<Seq<char>> {
    if path.len() == 0 {
        None
    } else {
        Some(path.last())
    }
}

/// Discovery's reading of one attribute: its last segment, its arguments read as those of
/// a story attribute (`#[story]` when the path is exactly `story`) and of a provider.
pub open spec fn attribute_converted(raw: RawAttribute, a: SourceAttribute) -> bool {
    &&& opt_view(a.last_segment) == last_segment_of(path_view(raw.path))
    &&& match story_attr_meta_of(plain_path(raw) && path_view(raw.path) == seq!["story"@], parsed_items(raw.args)) {
        Ok((title, tags)) => a.story_args is Ok && opt_view(a.story_args->Ok_0.title) == title
            && strings_view(a.story_args->Ok_0.tags@) == tags,
        Err(e) => a.story_args is Err && a.story_args->Err_0@ == e,
    }
    &&& match provider_attr_order_of(parsed_items(raw.args)) {
        Ok(v) => a.provider_args == Ok::<Option<i32>, String>(Some(v)),
        Err(e) => a.provider_args is Err && a.provider_args->Err_0@ == e,
    }
}

/// Discovery's reading of one item: functions and inline modules keep their names, the
/// attributes of a function are read as `attribute_converted` says, and everything else,
/// a module declared without a body included, is of no further interest.
pub open spec fn item_converted(raw: RawItem, item: SourceItem) -> bool
    decreases raw, 1int,
{
    match raw {
        RawItem::Function { name, attributes } => match item {
            SourceItem::Function { name: n, attributes: attrs } => n@ == name@ && attrs@.len()
                == attributes@.len() && forall|k: int|
                0 <= k < attrs@.len() ==> attribute_converted(
                    #[trigger] attributes@[k],
                    attrs@[k],
                ),
            _ => false,
        },
        RawItem::InlineModule { name, items } => match item {
            SourceItem::InlineModule { name: n, items: its } => n@ == name@ && items_converted(
                items@,
                its@,
            ),
            _ => false,
        },
        _ => item is Other,
    }
}

/// `items` reads `raw` item by item.
pub open spec fn items_converted(raw: Seq<RawItem>, items: Seq<SourceItem>) -> bool
    decreases raw, 0int,
{
    if raw.len() == 0 {
        items.len() == 0
    } else {
        items.len() == raw.len() && items_converted(
            raw.subrange(0, raw.len() - 1),
            items.subrange(0, items.len() - 1),
        ) && item_converted(raw[raw.len() - 1], items[items.len() - 1])
    }
}

fn copy_opt(o: &Option<String>) -> (r: Option<String>)
    ensures
        opt_view(r) == opt_view(*o),
{
    match o {
        Some(s) => Some(s.clone()),
        None => None,
    }
}

fn is_story_path(path: &Vec<String>) -> (r: bool)
    ensures
        r == (path_view(*path) == seq!["story"@]),
{
    if path.len() != 1 {
        proof {
            if path_view(*path) == seq!["story"@] {
                assert(path_view(*path).len() == 1);
            }
        }
        return false;
    }
    let r = str_eq(path[0].as_str(), "story");
    proof {
        assert(path_view(*path)[0] == path@[0]@);
        if r {
            assert(path_view(*path) =~= seq!["story"@]);
        }
    }
    r
}

/// Reads one attribute the way discovery does.
pub fn source_attribute(raw: &RawAttribute) -> (a: SourceAttribute)
    ensures
        attribute_converted(*raw, a),
{
    let last = if raw.path.len() == 0 {
        None
    } else {
        proof {
            assert(path_view(raw.path).last() == raw.path@[raw.path@.len() - 1]@);
        }
        Some(raw.path[raw.path.len() - 1].clone())
    };
    let story = is_plain(raw) && is_story_path(&raw.path);
    SourceAttribute {
        last_segment: last,
        story_args: story_attr_meta(story, &raw.args),
        provider_args: provider_attr_order(&raw.args),
    }
}

/// Reads the items of a parsed file the way discovery does.
pub fn source_items(raw: &Vec<RawItem>) -> (r: Vec<SourceItem>)
    ensures
        items_converted(raw@, r@),
    decreases raw@,
{
    let mut out: Vec<SourceItem> = Vec::new();
    let mut i: usize = 0;
    proof {
        assert(raw@.subrange(0, 0) =~= Seq::<RawItem>::empty());
    }
    while i < raw.len()
        invariant
            i <= raw@.len(),
            out@.len() == i,
            items_converted(raw@.subrange(0, i as int), out@),
        decreases raw@.len() - i,
    {
        let item = match &raw[i] {
            RawItem::Function { name, attributes } => {
                let mut attrs: Vec<SourceAttribute> = Vec::new();
                let mut k: usize = 0;
                while k < attributes.len()
                    invariant
                        k <= attributes@.len(),
                        attrs@.len() == k,
                        forall|j: int| 0 <= j < k ==> attribute_converted(#[trigger] attributes@[j], attrs@[j]),
                    decreases attributes@.len() - k,
                {
                    attrs.push(source_attribute(&attributes[k]));
                    k = k + 1;
                }
                SourceItem::Function { name: name.clone(), attributes: attrs }
            },
            RawItem::InlineModule { name, items } => {
                proof {
                    assert(decreases_to!(raw@ => raw@[i as int]));
                }
                SourceItem::InlineModule { name: name.clone(), items: source_items(items) }
            },
            _ => SourceItem::Other,
        };
        proof {
            let prev = out@;
            let next_raw = raw@.subrange(0, i + 1);
            let next = prev.push(item);
            assert(next_raw.subrange(0, i as int) =~= raw@.subrange(0, i as int));
            assert(next.subrange(0, i as int) =~= prev);
            assert(next_raw[i as int] == raw@[i as int]);
            assert(item_converted(raw@[i as int], item));
        }
        out.push(item);
        i = i + 1;
    }
    proof {
        assert(raw@.subrange(0, raw@.len() as int) =~= raw@);
    }
    out
}

/// The error for a source text that does not parse.
pub open spec fn parse_failure(path: Seq<char>, detail: Seq<char>) -> Seq<char> {
    "failed to parse Rust source "@ + path + ": "@ + detail
}

fn parse_failure_message(path: &str, detail: &str) -> (r: String)
    ensures
        r@ == parse_failure(path@, detail@),
{
    let mut m = concat2("failed to parse Rust source ", path);
    push_str(&mut m, ": ");
    push_str(&mut m, detail);
    m
}

/// Parses one source file for discovery: the text read from `path` (or the error reading
/// it) and its canonical path (or the error computing it).
pub fn parse_source_file(path: &str, source_path: Result<String, String>, source: Result<String, String>) -> (r:
    ParsedSourceFile)
    ensures
        r.path@ == path@,
        r.source_path == source_path,
        match source {
            Err(e) => r.items is Err && r.items->Err_0@ == e@,
            Ok(text) => match rust_file_items(text@) {
                Err(e) => r.items is Err && r.items->Err_0@ == parse_failure(path@, e),
                Ok(raw) => r.items is Ok && items_converted(raw, r.items->Ok_0@),
            },
        },
{
    let items = match source {
        Err(e) => Err(e),
        Ok(text) => match parse_rust_file(text.as_str()) {
            Err(e) => Err(parse_failure_message(path, e.as_str())),
            Ok(raw) => Ok(source_items(&raw)),
        },
    };
    ParsedSourceFile { path: path.to_owned(), source_path, items }
}

/// The error for a `#[path]` attribute that is not written `#[path = ...]`.
pub const PATH_NOT_NAME_VALUE: &'static str = "invalid #[path = ...] attribute: expected name-value syntax";

/// The error for a `#[path]` attribute whose value is not a string literal.
pub const PATH_NOT_STRING: &'static str = "invalid #[path = ...] attribute: expected string literal";

/// The path a module declaration's first `#[path]` attribute (from index `from` on) names;
/// `#[path]` is recognised as `Path::is_ident` does, so `#[::path]` is not one.
pub open spec fn path_override_from(attrs: Seq<RawAttribute>, from: int) -> Result<
    Option<Seq<char>>,
    Seq<char>,
>
    decreases attrs.len() - from,
{
    if from < 0 || from >= attrs.len() {
        Ok(None)
    } else if plain_path(attrs[from]) && path_view(attrs[from].path) == seq!["path"@] {
        match attrs[from].path_value {
            PathValue::NotNameValue => Err(PATH_NOT_NAME_VALUE@),
            PathValue::NotStringLiteral => Err(PATH_NOT_STRING@),
            PathValue::Str(p) => Ok(Some(p@)),
        }
    } else {
        path_override_from(attrs, from + 1)
    }
}

fn is_path_attribute(path: &Vec<String>) -> (r: bool)
    ensures
        r == (path_view(*path) == seq!["path"@]),
{
    if path.len() != 1 {
        proof {
            if path_view(*path) == seq!["path"@] {
                assert(path_view(*path).len() == 1);
            }
        }
        return false;
    }
    let r = str_eq(path[0].as_str(), "path");
    proof {
        assert(path_view(*path)[0] == path@[0]@);
        if r {
            assert(path_view(*path) =~= seq!["path"@]);
        }
    }
    r
}

/// Reads the `#[path = "..."]` override of a module declaration.
pub fn module_path_override(attrs: &Vec<RawAttribute>) -> (r: Result<Option<String>, String>)
    ensures
        match path_override_from(attrs@, 0) {
            Ok(o) => r is Ok && opt_view(r->Ok_0) == o,
            Err(e) => r is Err && r->Err_0@ == e,
        },
{
    let mut i: usize = 0;
    while i < attrs.len()
        invariant
            i <= attrs@.len(),
            path_override_from(attrs@, 0) == path_override_from(attrs@, i as int),
        decreases attrs@.len() - i,
    {
        if is_plain(&attrs[i]) && is_path_attribute(&attrs[i].path) {
            return match &attrs[i].path_value {
                PathValue::NotNameValue => Err(PATH_NOT_NAME_VALUE.to_owned()),
                PathValue::NotStringLiteral => Err(PATH_NOT_STRING.to_owned()),
                PathValue::Str(p) => Ok(Some(p.clone())),
            };
        }
        i = i + 1;
    }
    Ok(None)
}

/// A module declared without a body: its name, and the path its `#[path]` attribute names
/// (or that attribute's error).
pub struct ModuleDeclaration {
    pub name: String,
    pub path_override: Result<Option<String>, String>,
}

/// The plain values of a module declaration.
pub open spec fn declaration_view(d: ModuleDeclaration) -> (Seq<char>, Result<Option<Seq<char>>, Seq<char>>) {
    (
        d.name@,
        match d.path_override {
            Ok(o) => Ok(opt_view(o)),
            Err(e) => Err(e@),
        },
    )
}

/// The modules a file's top-level items declare without a body, in order.
pub open spec fn module_declarations_of(items: Seq<RawItem>) -> Seq<
    (Seq<char>, Result<Option<Seq<char>>, Seq<char>>),
>
    decreases items.len(),
{
    if items.len() == 0 {
        Seq::empty()
    } else {
        let prev = module_declarations_of(items.drop_last());
        match items.last() {
            RawItem::ExternalModule { name, attributes } => prev.push(
                (name@, path_override_from(attributes@, 0)),
            ),
            _ => prev,
        }
    }
}

/// The modules a source file declares without a body, which discovery follows into other
/// files.
pub fn module_declarations_in_source(path: &str, source: &str) -> (r: Result<Vec<ModuleDeclaration>, String>)
    ensures
        match rust_file_items(source@) {
            Err(e) => r is Err && r->Err_0@ == parse_failure(path@, e),
            Ok(items) => r is Ok && r->Ok_0@.map_values(|d: ModuleDeclaration| declaration_view(d))
                == module_declarations_of(items),
        },
{
    let raw = match parse_rust_file(source) {
        Err(e) => {
            return Err(parse_failure_message(path, e.as_str()));
        },
        Ok(raw) => raw,
    };
    let mut out: Vec<ModuleDeclaration> = Vec::new();
    let mut i: usize = 0;
    proof {
        assert(raw@.take(0) =~= Seq::<RawItem>::empty());
    }
    while i < raw.len()
        invariant
            i <= raw@.len(),
            out@.map_values(|d: ModuleDeclaration| declaration_view(d)) == module_declarations_of(
                raw@.take(i as int),
            ),
        decreases raw@.len() - i,
    {
        proof {
            assert(raw@.take(i + 1).drop_last() =~= raw@.take(i as int));
        }
        match &raw[i] {
            RawItem::ExternalModule { name, attributes } => {
                let d = ModuleDeclaration { name: name.clone(), path_override: module_path_override(attributes) };
                proof {
                    assert(out@.push(d).map_values(|d: ModuleDeclaration| declaration_view(d)) =~= out@.map_values(
                        |d: ModuleDeclaration| declaration_view(d),
                    ).push(declaration_view(d)));
                }
                out.push(d);
            },
            _ => {},
        }
        i = i + 1;
    }
    proof {
        assert(raw@.take(raw@.len() as int) =~= raw@);
    }
    Ok(out)
}

/// `Path::join` on relative paths written with `/`: an absolute `x` replaces `dir`.
pub open spec fn path_join(dir: Seq<char>, x: Seq<char>) -> Seq<char> {
    if dir.len() == 0 || (x.len() > 0 && x[0] == '/') {
        x
    } else if dir.last() == '/' {
        dir + x
    } else {
        dir + seq!['/'] + x
    }
}

fn join_path(dir: &str, x: &str) -> (r: String)
    ensures
        r@ == path_join(dir@, x@),
{
    let n = dir.unicode_len();
    if n == 0 || (x.unicode_len() > 0 && x.get_char(0) == '/') {
        return x.to_owned();
    }
    if dir.get_char(n - 1) == '/' {
        return concat2(dir, x);
    }
    proof {
        reveal_strlit("/");
        assert("/"@ =~= seq!['/']);
    }
    crate::text::concat3(dir, "/", x)
}

/// The directory a file's body-less modules live in: the file's own directory for `lib`,
/// `main` and `mod` files, else the directory named after the file's stem.
pub open spec fn module_search_dir(parent: Seq<char>, stem: Seq<char>) -> Seq<char> {
    if stem == "lib"@ || stem == "main"@ || stem == "mod"@ {
        parent
    } else {
        path_join(parent, stem)
    }
}

/// The files a module declaration may live in, in the order they are tried: the `#[path]`
/// override beside the declaring file, or `<name>.rs` before `<name>/mod.rs`.
pub open spec fn candidate_files(parent: Seq<char>, stem: Seq<char>, name: Seq<char>, path_override: Option<
    Seq<char>,
>) -> Seq<Seq<char>> {
    match path_override {
        Some(p) => seq![path_join(parent, p)],
        None => {
            let d = module_search_dir(parent, stem);
            seq![path_join(d, name + ".rs"@), path_join(path_join(d, name), "mod.rs"@)]
        },
    }
}

/// Without a `#[path]` override, a module declared in `lib.rs`, `main.rs` or `mod.rs` is
/// looked for beside the declaring file, as `<name>.rs` then `<name>/mod.rs`; one declared in
/// any other file `<stem>.rs` is looked for in the directory `<stem>` beside it. With an
/// override, the one candidate is the override beside the declaring file.
pub proof fn lemma_module_candidates_by_declaring_file(
    parent: Seq<char>,
    stem: Seq<char>,
    name: Seq<char>,
    over: Seq<char>,
)
    requires
        parent.len() > 0,
        parent.last() != '/',
        stem.len() > 0,
        stem[0] != '/',
        stem.last() != '/',
        name.len() > 0,
        name[0] != '/',
        name.last() != '/',
        over.len() > 0,
        over[0] != '/',
    ensures
        (stem == "lib"@ || stem == "main"@ || stem == "mod"@) ==> candidate_files(parent, stem, name, None)
            == seq![parent + "/"@ + name + ".rs"@, parent + "/"@ + name + "/mod.rs"@],
        !(stem == "lib"@ || stem == "main"@ || stem == "mod"@) ==> candidate_files(parent, stem, name, None)
            == seq![
            parent + "/"@ + stem + "/"@ + name + ".rs"@,
            parent + "/"@ + stem + "/"@ + name + "/mod.rs"@,
        ],
        candidate_files(parent, stem, name, Some(over)) == seq![parent + "/"@ + over],
{
    reveal_strlit("/");
    reveal_strlit(".rs");
    reveal_strlit("mod.rs");
    reveal_strlit("/mod.rs");
    assert("/"@ =~= seq!['/']);
    assert("/mod.rs"@ =~= seq!['/'] + "mod.rs"@);
    let rs = name + ".rs"@;
    assert(rs[0] == name[0]);
    assert("mod.rs"@[0] == 'm');
    assert(path_join(parent, over) =~= parent + "/"@ + over);
    if stem == "lib"@ || stem == "main"@ || stem == "mod"@ {
        assert(path_join(parent, rs) =~= parent + "/"@ + name + ".rs"@);
        let d = path_join(parent, name);
        assert(d =~= parent + "/"@ + name);
        assert(d.last() == name.last());
        assert(path_join(d, "mod.rs"@) =~= parent + "/"@ + name + "/mod.rs"@);
    } else {
        let d = path_join(parent, stem);
        assert(d =~= parent + "/"@ + stem);
        assert(d.last() == stem.last());
        assert(path_join(d, rs) =~= parent + "/"@ + stem + "/"@ + name + ".rs"@);
        let e = path_join(d, name);
        assert(e =~= parent + "/"@ + stem + "/"@ + name);
        assert(e.last() == name.last());
        assert(path_join(e, "mod.rs"@) =~= parent + "/"@ + stem + "/"@ + name + "/mod.rs"@);
    }
}

/// Lists the files a module declared in a file (whose directory is `parent` and whose stem
/// is `stem`) may live in, first choice first.
pub fn module_candidates(parent: &str, stem: &str, name: &str, path_override: Option<&str>) -> (r: Vec<String>)
    ensures
        strings_view(r@) == candidate_files(
            parent@,
            stem@,
            name@,
            match path_override {
                Some(p) => Some(p@),
                None => None,
            },
        ),
{
    let mut out: Vec<String> = Vec::new();
    match path_override {
        Some(p) => {
            out.push(join_path(parent, p));
        },
        None => {
            let dir = if str_eq(stem, "lib") || str_eq(stem, "main") || str_eq(stem, "mod") {
                parent.to_owned()
            } else {
                join_path(parent, stem)
            };
            let file = concat2(name, ".rs");
            out.push(join_path(dir.as_str(), file.as_str()));
            let sub = join_path(dir.as_str(), name);
            out.push(join_path(sub.as_str(), "mod.rs"));
        },
    }
    proof {
        assert(strings_view(out@) =~= candidate_files(
            parent@,
            stem@,
            name@,
            match path_override {
                Some(p) => Some(p@),
                None => None,
            },
        ));
    }
    out
}

/// The error for a `#[path]` override that names a missing file.
pub fn missing_module_path_message(name: &str, current_file: &str, resolved: &str) -> (r: String)
    ensures
        r@ == "module '"@ + name@ + "' declared in "@ + current_file@ + " points to missing path "@
            + resolved@,
{
    let mut m = concat2("module '", name);
    push_str(&mut m, "' declared in ");
    push_str(&mut m, current_file);
    push_str(&mut m, " points to missing path ");
    push_str(&mut m, resolved);
    m
}

/// The error for a module declaration none of whose candidate files exists.
pub fn unresolved_module_message(name: &str, current_file: &str) -> (r: String)
    ensures
        r@ == "failed to resolve module '"@ + name@ + "' declared in "@ + current_file@,
{
    let mut m = concat2("failed to resolve module '", name);
    push_str(&mut m, "' declared in ");
    push_str(&mut m, current_file);
    m
}

/// Discovers the stories of one source file from its text: the stories of its items as
/// discovery reads them, or the first error.
pub fn discover_components_in_source(entry_src_dir: &str, path: &str, source_path: &str, source: &str) -> (r:
    Result<Vec<StoryDefinition>, String>)
    ensures
        match rust_file_items(source@) {
            Err(e) => r is Err && r->Err_0@ == parse_failure(path@, e),
            Ok(raw) => exists|items: Seq<SourceItem>|
                #![trigger items_converted(raw, items)]
                items_converted(raw, items) && match stories_in_items(
                    ScanContext { entry_src_dir: entry_src_dir@, file_path: path@, source_path: source_path@ },
                    Seq::empty(),
                    items,
                ) {
                    Ok(found) => r is Ok && definitions_view(r->Ok_0@) == found,
                    Err(e) => r is Err && r->Err_0@ == e,
                },
        },
{
    let raw = match parse_rust_file(source) {
        Err(e) => {
            return Err(parse_failure_message(path, e.as_str()));
        },
        Ok(raw) => raw,
    };
    let items = source_items(&raw);
    let segments: Vec<String> = Vec::new();
    let mut out: Vec<StoryDefinition> = Vec::new();
    proof {
        assert(strings_view(segments@) =~= Seq::<Seq<char>>::empty());
        assert(definitions_view(out@) =~= Seq::empty());
    }
    let done = collect_stories_from_items(entry_src_dir, path, source_path, &segments, &items, &mut out);
    proof {
        assert(items_converted(raw@, items@));
        if done is Ok {
            let found = stories_in_items(
                ScanContext { entry_src_dir: entry_src_dir@, file_path: path@, source_path: source_path@ },
                Seq::empty(),
                items@,
            )->Ok_0;
            assert(Seq::<crate::manifest::StoryDefinitionView>::empty() + found =~= found);
        }
    }
    match done {
        Ok(()) => Ok(out),
        Err(e) => Err(e),
    }
}

/// Discovers the providers of one source file from its text, in source order, or the first
/// error.
pub fn discover_providers_in_source(entry_src_dir: &str, path: &str, source_path: &str, source: &str) -> (r:
    Result<Vec<ProviderDefinition>, String>)
    ensures
        match rust_file_items(source@) {
            Err(e) => r is Err && r->Err_0@ == parse_failure(path@, e),
            Ok(raw) => exists|items: Seq<SourceItem>|
                #![trigger items_converted(raw, items)]
                items_converted(raw, items) && match providers_in_items(
                    ScanContext { entry_src_dir: entry_src_dir@, file_path: path@, source_path: source_path@ },
                    Seq::empty(),
                    items,
                ) {
                    Ok(found) => r is Ok && providers_view(r->Ok_0@) == found,
                    Err(e) => r is Err && r->Err_0@ == e,
                },
        },
{
    let raw = match parse_rust_file(source) {
        Err(e) => {
            return Err(parse_failure_message(path, e.as_str()));
        },
        Ok(raw) => raw,
    };
    let items = source_items(&raw);
    let segments: Vec<String> = Vec::new();
    let mut out: Vec<ProviderDefinition> = Vec::new();
    proof {
        assert(strings_view(segments@) =~= Seq::<Seq<char>>::empty());
        assert(providers_view(out@) =~= Seq::empty());
    }
    let done = collect_providers_from_items(entry_src_dir, path, source_path, &segments, &items, &mut out);
    proof {
        assert(items_converted(raw@, items@));
        if done is Ok {
            let found = providers_in_items(
                ScanContext { entry_src_dir: entry_src_dir@, file_path: path@, source_path: source_path@ },
                Seq::empty(),
                items@,
            )->Ok_0;
            assert(Seq::<crate::runtime::ProviderDefinitionView>::empty() + found =~= found);
        }
    }
    match done {
        Ok(()) => Ok(out),
        Err(e) => Err(e),
    }
}

} // verus!
