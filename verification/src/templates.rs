//! The files scaffolded into the showcase app, rendered from Handlebars templates.
use vstd::prelude::*;

use crate::config::ShowcaseConfig;
use crate::manifest::strings_view;
use crate::navigation::split_on;
use crate::paths::{relative_dependency_path, relative_path, split_at_char};
use crate::scaffold::showcase_app_dir;
use crate::slug::{slug, slugify_title};
use crate::text::{concat2, concat3, push_char, push_str, trim_set, trimmed, TrimSet};

verus! {

/// The generated runtime module: only a token naming the discovery run behind it.
pub const GENERATED_RUNTIME_TEMPLATE: &'static str = "// Generated by dioxus-showcase build; rewritten on every build.\npub const SHOWCASE_GENERATION: &str = \"{{generation}}\";\n";

/// The showcase app's `Cargo.toml`.
///
/// `showcase_entry` renames the user's component crate to a fixed alias, and both
/// profiles pin `lto`: without it a wasm link drops every registration in that crate.
pub const SHOWCASE_CARGO_TEMPLATE: &'static str = "[package]\nname = \"{{package_name}}\"\nversion = \"{{package_version}}\"\nedition = \"2021\"\npublish = false\n\n[workspace]\n\n[dependencies]\ndioxus = { version = \"0.7\", features = [\"router\"] }\ndioxus-showcase-ui = \"{{package_version}}\"\nshowcase_entry = { package = \"{{entry_crate_package_name}}\", path = \"{{entry_crate_dependency_path}}\" }\n\n[features]\ndefault = [\"web\"]\nweb = [\"dioxus/web\"]\n\n[profile.dev]\nlto = \"thin\"\n\n[profile.release]\nlto = true\nstrip = true\n";

/// The showcase app's `Dioxus.toml`.
pub const SHOWCASE_DIOXUS_TEMPLATE: &'static str = "[application]\nname = \"{{app_name}}\"\ndefault_platform = \"web\"\n\n[web.app]\ntitle = \"{{app_title}}\"\nbase_path = \"{{base_path}}\"\n";

/// The showcase application's entry point, written once and never regenerated.
///
/// `use {{entry_crate}} as _;` is what links the component crate, and with it every
/// story registration; each `document::Stylesheet` line names a user stylesheet at the
/// user's compile time, which `asset!()` requires.
pub const SHOWCASE_MAIN_TEMPLATE: &'static str = "// Generated once by dioxus-showcase. Safe to edit; never regenerated.\nuse dioxus::prelude::*;\nuse {{entry_crate}} as _; // LOAD-BEARING: forces rlib linkage so registrations survive\n\nfn main() {\n    launch(App);\n}\n\n#[component]\nfn App() -> Element {\n    rsx! {\n{{#each stylesheets}}\n        document::Stylesheet { href: asset!(\"{{this}}\") }\n{{/each}}\n        dioxus_showcase_ui::ShowcaseApp { base_path: \"{{base_path}}\" }\n    }\n}\n";

/// The generated app's `Cargo.toml` names the user's component crate by this alias.
pub const ENTRY_CRATE_ALIAS: &'static str = "showcase_entry";

/// A value handed to a template: a string or a list of strings.
pub enum TemplateValue {
    Text(String),
    List(Vec<String>),
}

/// The mathematical content of a [`TemplateValue`].
pub enum TemplateValueView {
    Text(Seq<char>),
    List(Seq<Seq<char>>),
}

/// One named template variable.
pub struct TemplateField {
    pub name: String,
    pub value: TemplateValue,
}

/// The characters of a template value.
pub open spec fn value_view(v: TemplateValue) -> TemplateValueView {
    match v {
        TemplateValue::Text(s) => TemplateValueView::Text(s@),
        TemplateValue::List(items) => TemplateValueView::List(
            items@.map_values(|s: String| s@),
        ),
    }
}

/// The names and values of a template context.
pub open spec fn fields_view(fields: Seq<TemplateField>) -> Seq<(Seq<char>, TemplateValueView)> {
    fields.map_values(|f: TemplateField| (f.name@, value_view(f.value)))
}

/// The templates this library renders.
#[derive(Clone, Copy, Debug, PartialEq, Eq, Structural)]
pub enum ShowcaseTemplate {
    GeneratedRuntime,
    Cargo,
    Dioxus,
    Main,
}

/// The text of each template.
pub open spec fn template_text(which: ShowcaseTemplate) -> Seq<char> {
    match which {
        ShowcaseTemplate::GeneratedRuntime => GENERATED_RUNTIME_TEMPLATE@,
        ShowcaseTemplate::Cargo => SHOWCASE_CARGO_TEMPLATE@,
        ShowcaseTemplate::Dioxus => SHOWCASE_DIOXUS_TEMPLATE@,
        ShowcaseTemplate::Main => SHOWCASE_MAIN_TEMPLATE@,
    }
}

/// The context a template is rendered with: the names it uses, in this order, each a text
/// but the main template's `stylesheets`, which is a list.
pub open spec fn context_shape(which: ShowcaseTemplate, ctx: Seq<(Seq<char>, TemplateValueView)>) -> bool {
    match which {
        ShowcaseTemplate::GeneratedRuntime => ctx.len() == 1 && ctx[0].0 == "generation"@
            && ctx[0].1 is Text,
        ShowcaseTemplate::Cargo => ctx.len() == 4 && ctx[0].0 == "package_name"@ && ctx[0].1 is Text
            && ctx[1].0 == "package_version"@ && ctx[1].1 is Text && ctx[2].0
            == "entry_crate_package_name"@ && ctx[2].1 is Text && ctx[3].0
            == "entry_crate_dependency_path"@ && ctx[3].1 is Text,
        ShowcaseTemplate::Dioxus => ctx.len() == 3 && ctx[0].0 == "app_name"@ && ctx[0].1 is Text
            && ctx[1].0 == "app_title"@ && ctx[1].1 is Text && ctx[2].0 == "base_path"@ && ctx[2].1 is Text,
        ShowcaseTemplate::Main => ctx.len() == 3 && ctx[0].0 == "entry_crate"@ && ctx[0].1 is Text
            && ctx[1].0 == "base_path"@ && ctx[1].1 is Text && ctx[2].0 == "stylesheets"@ && ctx[2].1 is List,
    }
}

/// The text of a text value.
pub open spec fn text_value(v: TemplateValueView) -> Seq<char> {
    match v {
        TemplateValueView::Text(t) => t,
        TemplateValueView::List(_) => Seq::empty(),
    }
}

/// The items of a list value.
pub open spec fn list_value(v: TemplateValueView) -> Seq<Seq<char>> {
    match v {
        TemplateValueView::List(items) => items,
        TemplateValueView::Text(_) => Seq::empty(),
    }
}

/// One `document::Stylesheet` line per stylesheet URL, in order.
pub open spec fn stylesheet_lines(hrefs: Seq<Seq<char>>) -> Seq<char>
    decreases hrefs.len(),
{
    if hrefs.len() == 0 {
        Seq::empty()
    } else {
        stylesheet_lines(hrefs.drop_last()) + "        document::Stylesheet { href: asset!(\""@
            + hrefs.last() + "\") }\n"@
    }
}

/// The build profiles the showcase app's `Cargo.toml` ends with: both pin `lto`, without
/// which a wasm link drops every story registration of the component crate.
pub open spec fn cargo_lto_profiles() -> Seq<char> {
    "[profile.dev]\nlto = \"thin\"\n\n[profile.release]\nlto = true\nstrip = true\n"@
}

/// The line of the entry point that links the component crate named `entry`.
pub open spec fn linkage_line(entry: Seq<char>) -> Seq<char> {
    "use "@ + entry + " as _;"@
}

/// What a template renders to: each `{{name}}` replaced by its value as written (escaping
/// is off), and the main template's `{{#each stylesheets}}` block, whose opening and closing
/// tags stand alone on their lines, repeated once per stylesheet.
pub open spec fn showcase_render(which: ShowcaseTemplate, ctx: Seq<(Seq<char>, TemplateValueView)>) -> Seq<char> {
    match which {
        ShowcaseTemplate::GeneratedRuntime => "// Generated by dioxus-showcase build; rewritten on every build.\npub const SHOWCASE_GENERATION: &str = \""@
            + text_value(ctx[0].1) + "\";\n"@,
        ShowcaseTemplate::Cargo => "[package]\nname = \""@ + text_value(ctx[0].1) + "\"\nversion = \""@
            + text_value(ctx[1].1)
            + "\"\nedition = \"2021\"\npublish = false\n\n[workspace]\n\n[dependencies]\ndioxus = { version = \"0.7\", features = [\"router\"] }\ndioxus-showcase-ui = \""@
            + text_value(ctx[1].1) + "\"\nshowcase_entry = { package = \""@ + text_value(ctx[2].1)
            + "\", path = \""@ + text_value(ctx[3].1)
            + "\" }\n\n[features]\ndefault = [\"web\"]\nweb = [\"dioxus/web\"]\n\n"@ + cargo_lto_profiles(),
        ShowcaseTemplate::Dioxus => "[application]\nname = \""@ + text_value(ctx[0].1)
            + "\"\ndefault_platform = \"web\"\n\n[web.app]\ntitle = \""@ + text_value(ctx[1].1)
            + "\"\nbase_path = \""@ + text_value(ctx[2].1) + "\"\n"@,
        ShowcaseTemplate::Main => "// Generated once by dioxus-showcase. Safe to edit; never regenerated.\nuse dioxus::prelude::*;\n"@
            + linkage_line(text_value(ctx[0].1))
            + " // LOAD-BEARING: forces rlib linkage so registrations survive\n\nfn main() {\n    launch(App);\n}\n\n#[component]\nfn App() -> Element {\n    rsx! {\n"@
            + stylesheet_lines(list_value(ctx[2].1))
            + "        dioxus_showcase_ui::ShowcaseApp { base_path: \""@ + text_value(ctx[1].1)
            + "\" }\n    }\n}\n"@,
    }
}

#[verifier::external_type_specification]
#[verifier::external_body]
pub struct ExRenderError(handlebars::RenderError);

/// `Handlebars::render_template` on a fresh registry whose escape function is
/// `no_escape`, with the context passed as a JSON object of its fields.
///
/// Trusted: on one of the library's templates (`which` names it), with a context of the
/// shape that template reads, Handlebars renders the text `showcase_render` states: values
/// are written as they are, a `{{#each}}` block repeats its body once per item, and a block
/// tag alone on its line takes the line's newline with it. None of the templates includes a
/// partial, so rendering always ends, and every name it reads is present, so it does not
/// fail.
#[verifier::external_body]
fn render_with_handlebars(which: ShowcaseTemplate, template: &str, context: &Vec<TemplateField>) -> (r: Result<
    String,
    handlebars::RenderError,
>)
    requires
        template@ == template_text(which),
        context_shape(which, fields_view(context@)),
    ensures
        r is Ok,
        r->Ok_0@ == showcase_render(which, fields_view(context@)),
{
    let mut data = serde_json::Map::new();
    for field in context.iter() {
        let value = match &field.value {
            TemplateValue::Text(text) => serde_json::Value::String(text.clone()),
            TemplateValue::List(items) => serde_json::Value::Array(
                items.iter().map(|item| serde_json::Value::String(item.clone())).collect(),
            ),
        };
        data.insert(field.name.clone(), value);
    }
    let mut handlebars = handlebars::Handlebars::new();
    handlebars.register_escape_fn(handlebars::no_escape);
    handlebars.render_template(template, &data)
}

/// `RenderError`'s `Display` text.
///
/// Trusted: nothing is stated of the text.
#[verifier::external_body]
fn render_error_text(err: &handlebars::RenderError) -> (r: String) {
    err.to_string()
}

/// The message of a failed render.
pub open spec fn template_failure_message(detail: Seq<char>) -> Seq<char> {
    "failed to render template: "@ + detail
}

/// The result of a render: the text `showcase_render` states.
pub open spec fn rendered(
    which: ShowcaseTemplate,
    context: Seq<(Seq<char>, TemplateValueView)>,
    result: Result<String, String>,
) -> bool {
    result is Ok && result->Ok_0@ == showcase_render(which, context)
}

/// The showcase app's `Cargo.toml` always ends with the `lto` profiles, and its `main.rs`
/// always holds the line that links the component crate by its alias.
pub proof fn lemma_generated_app_keeps_lto_and_linkage(
    cargo: Seq<(Seq<char>, TemplateValueView)>,
    main: Seq<(Seq<char>, TemplateValueView)>,
)
    requires
        main.len() > 0,
        main[0].1 == TemplateValueView::Text(ENTRY_CRATE_ALIAS@),
    ensures
        exists|head: Seq<char>| showcase_render(ShowcaseTemplate::Cargo, cargo) == head + cargo_lto_profiles(),
        exists|head: Seq<char>, tail: Seq<char>|
            showcase_render(ShowcaseTemplate::Main, main) == head + linkage_line(ENTRY_CRATE_ALIAS@) + tail,
{
    let r = showcase_render(ShowcaseTemplate::Cargo, cargo);
    let head = r.subrange(0, r.len() - cargo_lto_profiles().len());
    assert(r == head + cargo_lto_profiles());
    let m = showcase_render(ShowcaseTemplate::Main, main);
    let pre = "// Generated once by dioxus-showcase. Safe to edit; never regenerated.\nuse dioxus::prelude::*;\n"@;
    let l = linkage_line(ENTRY_CRATE_ALIAS@);
    let tail = m.subrange((pre.len() + l.len()) as int, m.len() as int);
    assert(m == pre + l + tail);
}

/// Formats the error of a failed render.
pub fn template_failure(detail: &str) -> (r: String)
    ensures
        r@ == template_failure_message(detail@),
{
    concat2("failed to render template: ", detail)
}

/// Renders a Handlebars template with pre-escaped context values.
fn render_template(which: ShowcaseTemplate, template: &str, context: &Vec<TemplateField>) -> (r: Result<
    String,
    String,
>)
    requires
        template@ == template_text(which),
        context_shape(which, fields_view(context@)),
    ensures
        rendered(which, fields_view(context@), r),
{
    match render_with_handlebars(which, template, context) {
        Ok(text) => Ok(text),
        Err(err) => {
            let detail = render_error_text(&err);
            let message = template_failure(detail.as_str());
            assert(message@ == template_failure_message(detail@));
            Err(message)
        },
    }
}


/// How a value is escaped for a double-quoted Rust or TOML string literal: every
/// backslash doubled, then every double quote preceded by a backslash.
pub open spec fn quoted_escape(s: Seq<char>) -> Seq<char>
    decreases s.len(),
{
    if s.len() == 0 {
        Seq::empty()
    } else {
        let c = s.last();
        quoted_escape(s.drop_last()) + if c == '\\' {
            seq!['\\', '\\']
        } else if c == '"' {
            seq!['\\', '"']
        } else {
            seq![c]
        }
    }
}

fn escape_quoted(value: &str) -> (r: String)
    ensures
        r@ == quoted_escape(value@),
{
    let n = value.unicode_len();
    let mut out = String::new();
    let mut i: usize = 0;
    while i < n
        invariant
            n == value@.len(),
            i <= n,
            out@ == quoted_escape(value@.take(i as int)),
        decreases n - i,
    {
        let c = value.get_char(i);
        proof {
            assert(value@.take(i + 1).drop_last() =~= value@.take(i as int));
            assert(value@.take(i + 1).last() == c);
        }
        let ghost before = out@;
        if c == '\\' {
            push_char(&mut out, '\\');
            push_char(&mut out, '\\');
        } else if c == '"' {
            push_char(&mut out, '\\');
            push_char(&mut out, '"');
        } else {
            push_char(&mut out, c);
        }
        proof {
            assert(out@ =~= quoted_escape(value@.take(i + 1)));
        }
        i = i + 1;
    }
    proof {
        assert(value@.take(n as int) =~= value@);
    }
    out
}

/// Escapes a string for inclusion in generated TOML source.
pub fn escape_toml_string(value: &str) -> (r: String)
    ensures
        r@ == quoted_escape(value@),
{
    escape_quoted(value)
}

/// Escapes a string for inclusion in generated Rust source.
pub fn escape_rust_string(value: &str) -> (r: String)
    ensures
        r@ == quoted_escape(value@),
{
    escape_quoted(value)
}

/// A base path with surrounding whitespace and then surrounding slashes removed.
pub open spec fn bare_base_path(raw: Seq<char>) -> Seq<char> {
    trimmed(trimmed(raw, TrimSet::Whitespace), TrimSet::Char('/'))
}

/// The form the shell's `base_path` prop takes: `/` at the root, else `/` and the bare path.
pub open spec fn app_base_path(raw: Seq<char>) -> Seq<char> {
    if bare_base_path(raw).len() == 0 {
        seq!['/']
    } else {
        seq!['/'] + bare_base_path(raw)
    }
}

/// Strips whitespace and then slashes from both ends of a base path.
pub fn trim_base_path(raw: &str) -> (r: String)
    ensures
        r@ == bare_base_path(raw@),
{
    let trimmed_ws = trim_set(raw, &TrimSet::Whitespace);
    trim_set(trimmed_ws.as_str(), &TrimSet::Char('/'))
}

/// Normalizes a configured base path into the form `ShowcaseApp` documents: `/` or
/// `/my-repo`, with a leading slash and no trailing one.
pub fn normalize_app_base_path(base_path: &str) -> (r: String)
    ensures
        r@ == app_base_path(base_path@),
{
    let bare = trim_base_path(base_path);
    proof {
        reveal_strlit("/");
        assert("/"@ =~= seq!['/']);
    }
    if bare.unicode_len() == 0 {
        "/".to_owned()
    } else {
        concat2("/", bare.as_str())
    }
}

fn text_field(name: &str, value: String) -> (r: TemplateField)
    ensures
        r.name@ == name@,
        value_view(r.value) == TemplateValueView::Text(value@),
{
    TemplateField { name: name.to_owned(), value: TemplateValue::Text(value) }
}

/// Renders the generated runtime module: a single token identifying which discovery run
/// produced the current tree.
pub fn render_generated_runtime_rs(generation: &str) -> (r: Result<String, String>)
    ensures
        rendered(
            ShowcaseTemplate::GeneratedRuntime,
            seq![("generation"@, TemplateValueView::Text(quoted_escape(generation@)))],
            r,
        ),
{
    let mut context: Vec<TemplateField> = Vec::new();
    context.push(text_field("generation", escape_rust_string(generation)));
    proof {
        assert(fields_view(context@) =~= seq![
            ("generation"@, TemplateValueView::Text(quoted_escape(generation@))),
        ]);
    }
    render_template(ShowcaseTemplate::GeneratedRuntime, GENERATED_RUNTIME_TEMPLATE, &context)
}

/// The escaped form of each stylesheet URL.
pub open spec fn escaped_all(items: Seq<Seq<char>>) -> Seq<Seq<char>> {
    items.map_values(|s: Seq<char>| quoted_escape(s))
}

/// Renders the showcase app's `main.rs`, linking one stylesheet per URL in `stylesheets`.
pub fn render_showcase_app_main_rs(base_path: &str, stylesheets: &[String]) -> (r: Result<
    String,
    String,
>)
    ensures
        rendered(
            ShowcaseTemplate::Main,
            seq![
                ("entry_crate"@, TemplateValueView::Text(ENTRY_CRATE_ALIAS@)),
                ("base_path"@, TemplateValueView::Text(quoted_escape(app_base_path(base_path@)))),
                ("stylesheets"@, TemplateValueView::List(
                    escaped_all(stylesheets@.map_values(|s: String| s@)),
                )),
            ],
            r,
        ),
{
    let mut hrefs: Vec<String> = Vec::new();
    let mut i: usize = 0;
    while i < stylesheets.len()
        invariant
            i <= stylesheets@.len(),
            hrefs@.map_values(|s: String| s@) =~= escaped_all(
                stylesheets@.take(i as int).map_values(|s: String| s@),
            ),
        decreases stylesheets@.len() - i,
    {
        let ghost before = hrefs@;
        let escaped = escape_rust_string(stylesheets[i].as_str());
        hrefs.push(escaped);
        proof {
            let prev = stylesheets@.take(i as int).map_values(|s: String| s@);
            assert(stylesheets@.take(i + 1).map_values(|s: String| s@) =~= prev.push(
                stylesheets@[i as int]@,
            ));
            assert(escaped_all(prev.push(stylesheets@[i as int]@)) =~= escaped_all(prev).push(
                quoted_escape(stylesheets@[i as int]@),
            ));
            assert(hrefs@.map_values(|s: String| s@) =~= before.map_values(|s: String| s@).push(
                escaped@,
            ));
        }
        i = i + 1;
    }
    proof {
        assert(stylesheets@.take(stylesheets@.len() as int) =~= stylesheets@);
    }
    let mut context: Vec<TemplateField> = Vec::new();
    context.push(text_field("entry_crate", ENTRY_CRATE_ALIAS.to_owned()));
    let normalized = normalize_app_base_path(base_path);
    context.push(text_field("base_path", escape_rust_string(normalized.as_str())));
    let ghost list_view = hrefs@.map_values(|s: String| s@);
    context.push(TemplateField { name: "stylesheets".to_owned(), value: TemplateValue::List(hrefs) });
    proof {
        assert(fields_view(context@) =~= seq![
            ("entry_crate"@, TemplateValueView::Text(ENTRY_CRATE_ALIAS@)),
            ("base_path"@, TemplateValueView::Text(quoted_escape(app_base_path(base_path@)))),
            ("stylesheets"@, TemplateValueView::List(list_view)),
        ]);
    }
    render_template(ShowcaseTemplate::Main, SHOWCASE_MAIN_TEMPLATE, &context)
}

/// Renders the showcase app's `Dioxus.toml`: its name, title and bare base path.
pub fn render_showcase_app_dioxus_toml(config: &ShowcaseConfig) -> (r: Result<String, String>)
    ensures
        rendered(
            ShowcaseTemplate::Dioxus,
            seq![
                ("app_name"@, TemplateValueView::Text(
                    quoted_escape(config.project.name@ + " showcase"@),
                )),
                ("app_title"@, TemplateValueView::Text(
                    quoted_escape(config.project.name@ + " Showcase"@),
                )),
                ("base_path"@, TemplateValueView::Text(
                    quoted_escape(bare_base_path(config.build.base_path@)),
                )),
            ],
            r,
        ),
{
    let app_name = escape_toml_string(concat2(config.project.name.as_str(), " showcase").as_str());
    let app_title = escape_toml_string(
        concat2(config.project.name.as_str(), " Showcase").as_str(),
    );
    // The Dioxus CLI trims slashes itself, so a root base path renders as an empty string.
    let base_path = escape_toml_string(trim_base_path(config.build.base_path.as_str()).as_str());
    let mut context: Vec<TemplateField> = Vec::new();
    context.push(text_field("app_name", app_name));
    context.push(text_field("app_title", app_title));
    context.push(text_field("base_path", base_path));
    proof {
        assert(fields_view(context@) =~= seq![
            ("app_name"@, TemplateValueView::Text(
                quoted_escape(config.project.name@ + " showcase"@),
            )),
            ("app_title"@, TemplateValueView::Text(
                quoted_escape(config.project.name@ + " Showcase"@),
            )),
            ("base_path"@, TemplateValueView::Text(
                quoted_escape(bare_base_path(config.build.base_path@)),
            )),
        ]);
    }
    render_template(ShowcaseTemplate::Dioxus, SHOWCASE_DIOXUS_TEMPLATE, &context)
}


/// The lines of `s` as `str::lines` yields them, for a scan that trims every line: split
/// at `\n`, a final empty piece dropped (a carriage return left at a line's end is
/// whitespace and goes with the trim).
pub open spec fn text_lines(s: Seq<char>) -> Seq<Seq<char>> {
    let pieces = split_on(s, '\n');
    if pieces.last().len() == 0 {
        pieces.drop_last()
    } else {
        pieces
    }
}

/// The index of the first `c` in `s`, or -1.
pub open spec fn first_index_of(s: Seq<char>, c: char, from: int) -> int
    decreases s.len() - from,
{
    if from < 0 || from >= s.len() {
        -1
    } else if s[from] == c {
        from
    } else {
        first_index_of(s, c, from + 1)
    }
}

/// A quoted TOML string value without its quotes, or the error for an unquoted one.
pub open spec fn toml_string(value: Seq<char>) -> Result<Seq<char>, Seq<char>> {
    if value.len() > 0 && value[0] == '"' && value.last() == '"' {
        Ok(value.subrange(1, value.len() - 1))
    } else {
        Err("expected quoted string, got "@ + value)
    }
}

/// The outcome of scanning a manifest for `[package].name`.
pub enum PackageScan {
    /// The last `name` assigned in `[package]`, if any.
    Found(Option<Seq<char>>),
    /// The error for a `name` value that is not a quoted string.
    Failed(Seq<char>),
    /// A `name` value that is a lone `"`, which the scan cannot take apart.
    Unsliceable,
}

/// Scans manifest lines for `[package].name`: comments and blank lines are skipped,
/// `[...]` opens a section, and the first `=` of any other line splits key from value.
pub open spec fn scan_package_name(
    lines: Seq<Seq<char>>,
    section: Option<Seq<char>>,
    name: Option<Seq<char>>,
) -> PackageScan
    decreases lines.len(),
{
    if lines.len() == 0 {
        PackageScan::Found(name)
    } else {
        let line = trimmed(lines[0], TrimSet::Whitespace);
        let rest = lines.drop_first();
        if line.len() == 0 || line[0] == '#' {
            scan_package_name(rest, section, name)
        } else if line[0] == '[' && line.last() == ']' {
            scan_package_name(rest, Some(line.subrange(1, line.len() - 1)), name)
        } else {
            let eq = first_index_of(line, '=', 0);
            if eq < 0 {
                scan_package_name(rest, section, name)
            } else {
                let key = trimmed(line.subrange(0, eq), TrimSet::Whitespace);
                let value = trimmed(line.subrange(eq + 1, line.len() as int), TrimSet::Whitespace);
                if section == Some("package"@) && key == "name"@ {
                    if value == seq!['"'] {
                        PackageScan::Unsliceable
                    } else {
                        match toml_string(value) {
                            Ok(v) => scan_package_name(rest, section, Some(v)),
                            Err(e) => PackageScan::Failed(e),
                        }
                    }
                } else {
                    scan_package_name(rest, section, name)
                }
            }
        }
    }
}

/// Whether a manifest line, trimmed, opens a table (`[...]`).
pub open spec fn opens_table(line: Seq<char>) -> bool {
    let t = trimmed(line, TrimSet::Whitespace);
    t.len() > 0 && t[0] == '[' && t.last() == ']'
}

proof fn lemma_scan_outside_package(lines: Seq<Seq<char>>, section: Option<Seq<char>>, name: Option<Seq<char>>)
    requires
        section != Some("package"@),
        forall|i: int| 0 <= i < lines.len() ==> !opens_table(#[trigger] lines[i]),
    ensures
        scan_package_name(lines, section, name) == PackageScan::Found(name),
    decreases lines.len(),
{
    if lines.len() > 0 {
        assert(!opens_table(lines[0]));
        assert forall|i: int| 0 <= i < lines.drop_first().len() implies !opens_table(
            #[trigger] lines.drop_first()[i],
        ) by {
            assert(lines.drop_first()[i] == lines[i + 1]);
        }
        lemma_scan_outside_package(lines.drop_first(), section, name);
    }
}

/// A table other than `[package]` ends the package table: a `name` under it (such as the
/// `[lib]` or `[[bin]]` name) never becomes the package name, whatever table came before.
pub proof fn lemma_other_table_name_is_ignored(
    header: Seq<char>,
    table: Seq<char>,
    tail: Seq<Seq<char>>,
    section: Option<Seq<char>>,
    name: Option<Seq<char>>,
)
    requires
        trimmed(header, TrimSet::Whitespace) == "["@ + table + "]"@,
        table != "package"@,
        forall|i: int| 0 <= i < tail.len() ==> !opens_table(#[trigger] tail[i]),
    ensures
        scan_package_name(seq![header] + tail, section, name) == PackageScan::Found(name),
{
    reveal_strlit("[");
    reveal_strlit("]");
    let line = trimmed(header, TrimSet::Whitespace);
    assert(line[0] == '[' && line.last() == ']');
    assert(line.subrange(1, line.len() - 1) =~= table);
    assert((seq![header] + tail)[0] == header);
    assert((seq![header] + tail).drop_first() =~= tail);
    lemma_scan_outside_package(tail, Some(table), name);
}

/// Appending a table other than `[package]` to a manifest, with any keys under it, leaves
/// the package name read from it unchanged.
pub proof fn lemma_appended_table_keeps_package_name(
    front: Seq<Seq<char>>,
    header: Seq<char>,
    table: Seq<char>,
    tail: Seq<Seq<char>>,
    section: Option<Seq<char>>,
    name: Option<Seq<char>>,
)
    requires
        trimmed(header, TrimSet::Whitespace) == "["@ + table + "]"@,
        table != "package"@,
        forall|i: int| 0 <= i < tail.len() ==> !opens_table(#[trigger] tail[i]),
    ensures
        scan_package_name(front + (seq![header] + tail), section, name) == scan_package_name(front, section, name),
    decreases front.len(),
{
    let back = seq![header] + tail;
    if front.len() == 0 {
        assert(front + back =~= back);
        lemma_other_table_name_is_ignored(header, table, tail, section, name);
    } else {
        assert((front + back).drop_first() =~= front.drop_first() + back);
        assert((front + back)[0] == front[0]);
        let line = trimmed(front[0], TrimSet::Whitespace);
        if line.len() == 0 || line[0] == '#' {
            lemma_appended_table_keeps_package_name(front.drop_first(), header, table, tail, section, name);
        } else if line[0] == '[' && line.last() == ']' {
            lemma_appended_table_keeps_package_name(
                front.drop_first(),
                header,
                table,
                tail,
                Some(line.subrange(1, line.len() - 1)),
                name,
            );
        } else {
            let eq = first_index_of(line, '=', 0);
            if eq < 0 {
                lemma_appended_table_keeps_package_name(front.drop_first(), header, table, tail, section, name);
            } else {
                let value = trimmed(line.subrange(eq + 1, line.len() as int), TrimSet::Whitespace);
                match toml_string(value) {
                    Ok(v) => {
                        lemma_appended_table_keeps_package_name(
                            front.drop_first(),
                            header,
                            table,
                            tail,
                            section,
                            Some(v),
                        );
                    },
                    Err(_) => {},
                }
                lemma_appended_table_keeps_package_name(front.drop_first(), header, table, tail, section, name);
            }
        }
    }
}

/// Whether a manifest line neither opens a table nor assigns `name`.
pub open spec fn other_package_line(line: Seq<char>) -> bool {
    let t = trimmed(line, TrimSet::Whitespace);
    let eq = first_index_of(t, '=', 0);
    !opens_table(line) && (eq < 0 || trimmed(t.subrange(0, eq), TrimSet::Whitespace) != "name"@)
}

proof fn lemma_scan_keeps_name(lines: Seq<Seq<char>>, name: Option<Seq<char>>)
    requires
        forall|i: int| 0 <= i < lines.len() ==> other_package_line(#[trigger] lines[i]),
    ensures
        scan_package_name(lines, Some("package"@), name) == PackageScan::Found(name),
    decreases lines.len(),
{
    if lines.len() > 0 {
        assert(other_package_line(lines[0]));
        assert forall|i: int| 0 <= i < lines.drop_first().len() implies other_package_line(
            #[trigger] lines.drop_first()[i],
        ) by {
            assert(lines.drop_first()[i] == lines[i + 1]);
        }
        lemma_scan_keeps_name(lines.drop_first(), name);
    }
}

proof fn lemma_package_lines(header: Seq<char>, line: Seq<char>, v: Seq<char>, tail: Seq<Seq<char>>, s: Option<Seq<char>>, n: Option<Seq<char>>)
    requires
        trimmed(header, TrimSet::Whitespace) == "[package]"@,
        trimmed(line, TrimSet::Whitespace) == "name = "@ + seq!['"'] + v + seq!['"'],
        forall|i: int| 0 <= i < tail.len() ==> other_package_line(#[trigger] tail[i]),
    ensures
        scan_package_name(seq![header, line] + tail, s, n) == PackageScan::Found(Some(v)),
{
    reveal_strlit("[package]");
    reveal_strlit("package");
    reveal_strlit("name = ");
    reveal_strlit("name");
    let lines = seq![header, line] + tail;
    assert(lines[0] == header);
    assert(lines.drop_first()[0] == line);
    assert(lines.drop_first().drop_first() =~= tail);
    let h = trimmed(header, TrimSet::Whitespace);
    assert(h.subrange(1, h.len() - 1) =~= "package"@);
    let t = trimmed(line, TrimSet::Whitespace);
    assert(t[0] == 'n' && t[1] == 'a' && t[2] == 'm' && t[3] == 'e' && t[4] == ' ' && t[5] == '=');
    assert(first_index_of(t, '=', 5) == 5);
    assert(first_index_of(t, '=', 4) == 5);
    assert(first_index_of(t, '=', 3) == 5);
    assert(first_index_of(t, '=', 2) == 5);
    assert(first_index_of(t, '=', 1) == 5);
    assert(first_index_of(t, '=', 0) == 5);
    let key = t.subrange(0, 5);
    assert(crate::text::trimmed_start(key, TrimSet::Whitespace) == key);
    assert(key.drop_last() =~= "name"@);
    assert(crate::text::trimmed_end(key.drop_last(), TrimSet::Whitespace) == key.drop_last());
    assert(crate::text::trimmed_end(key, TrimSet::Whitespace) == key.drop_last());
    let after = t.subrange(6, t.len() as int);
    let quoted = seq!['"'] + v + seq!['"'];
    assert(after.drop_first() =~= quoted);
    assert(after[0] == ' ');
    assert(crate::text::trimmed_start(quoted, TrimSet::Whitespace) == quoted);
    assert(crate::text::trimmed_start(after, TrimSet::Whitespace) == quoted);
    assert(quoted.last() == '"');
    assert(crate::text::trimmed_end(quoted, TrimSet::Whitespace) == quoted);
    assert(quoted.subrange(1, quoted.len() - 1) =~= v);
    assert(quoted != seq!['"']) by {
        assert(quoted.len() >= 2);
    }
    lemma_scan_keeps_name(tail, Some(v));
    let value = trimmed(t.subrange(6int, t.len() as int), TrimSet::Whitespace);
    assert(value == quoted);
    assert(toml_string(value) == Ok::<Seq<char>, Seq<char>>(v));
    assert(trimmed(key, TrimSet::Whitespace) == "name"@);
    assert(t.len() > 0 && t[0] != '#' && t[0] != '[');
    assert(scan_package_name(lines.drop_first(), Some("package"@), n) == scan_package_name(
        tail,
        Some("package"@),
        Some(v),
    ));
    assert(h.len() > 0 && h[0] == '[' && h.last() == ']' && h[0] != '#');
    assert(scan_package_name(lines, s, n) == scan_package_name(lines.drop_first(), Some("package"@), n));
}

proof fn lemma_scan_prefix_then(front: Seq<Seq<char>>, back: Seq<Seq<char>>, s: Option<Seq<char>>, n: Option<Seq<char>>, v: Seq<char>)
    requires
        forall|s2: Option<Seq<char>>, n2: Option<Seq<char>>| #[trigger] scan_package_name(back, s2, n2)
            == PackageScan::Found(Some(v)),
        scan_package_name(front, s, n) is Found,
    ensures
        scan_package_name(front + back, s, n) == PackageScan::Found(Some(v)),
    decreases front.len(),
{
    if front.len() == 0 {
        assert(front + back =~= back);
        assert(scan_package_name(back, s, n) == PackageScan::Found(Some(v)));
    } else {
        assert((front + back).drop_first() =~= front.drop_first() + back);
        assert((front + back)[0] == front[0]);
        let line = trimmed(front[0], TrimSet::Whitespace);
        if line.len() == 0 || line[0] == '#' {
            lemma_scan_prefix_then(front.drop_first(), back, s, n, v);
        } else if line[0] == '[' && line.last() == ']' {
            lemma_scan_prefix_then(front.drop_first(), back, Some(line.subrange(1, line.len() - 1)), n, v);
        } else {
            let eq = first_index_of(line, '=', 0);
            if eq < 0 {
                lemma_scan_prefix_then(front.drop_first(), back, s, n, v);
            } else {
                let key = trimmed(line.subrange(0, eq), TrimSet::Whitespace);
                let value = trimmed(line.subrange(eq + 1, line.len() as int), TrimSet::Whitespace);
                if s == Some("package"@) && key == "name"@ {
                    match toml_string(value) {
                        Ok(w) => {
                            lemma_scan_prefix_then(front.drop_first(), back, s, Some(w), v);
                        },
                        Err(_) => {},
                    }
                } else {
                    lemma_scan_prefix_then(front.drop_first(), back, s, n, v);
                }
            }
        }
    }
}

/// `name = "<v>"` under a `[package]` header, with no later table or `name` key, is the
/// package name read, whatever the manifest held before (as long as that part reads
/// cleanly).
pub proof fn lemma_package_name_is_read(
    front: Seq<Seq<char>>,
    header: Seq<char>,
    line: Seq<char>,
    v: Seq<char>,
    tail: Seq<Seq<char>>,
    section: Option<Seq<char>>,
    name: Option<Seq<char>>,
)
    requires
        trimmed(header, TrimSet::Whitespace) == "[package]"@,
        trimmed(line, TrimSet::Whitespace) == "name = "@ + seq!['"'] + v + seq!['"'],
        forall|i: int| 0 <= i < tail.len() ==> other_package_line(#[trigger] tail[i]),
        scan_package_name(front, section, name) is Found,
    ensures
        scan_package_name(front + (seq![header, line] + tail), section, name) == PackageScan::Found(Some(v)),
{
    let back = seq![header, line] + tail;
    assert forall|s2: Option<Seq<char>>, n2: Option<Seq<char>>|
        #[trigger] scan_package_name(back, s2, n2) == PackageScan::Found(Some(v)) by {
        lemma_package_lines(header, line, v, tail, s2, n2);
    }
    lemma_scan_prefix_then(front, back, section, name, v);
}

/// Parses a bare TOML string literal value from a `key = "value"` line.
pub fn parse_toml_string(value: &str) -> (r: Result<String, String>)
    requires
        value@ != seq!['"'],
    ensures
        match toml_string(value@) {
            Ok(v) => r is Ok && r->Ok_0@ == v,
            Err(e) => r is Err && r->Err_0@ == e,
        },
{
    let n = value.unicode_len();
    if n > 0 && value.get_char(0) == '"' && value.get_char(n - 1) == '"' {
        if n == 1 {
            assert(value@ =~= seq!['"']);
        }
        Ok(crate::text::substring(value, 1, n - 1))
    } else {
        Err(concat2("expected quoted string, got ", value))
    }
}

/// The index of the first `c` in `s`.
pub fn find_char_index(s: &str, c: char) -> (r: Option<usize>)
    ensures
        match r {
            Some(i) => i < s@.len() && first_index_of(s@, c, 0) == i,
            None => first_index_of(s@, c, 0) == -1,
        },
{
    let n = s.unicode_len();
    let mut i: usize = 0;
    while i < n
        invariant
            n == s@.len(),
            i <= n,
            first_index_of(s@, c, 0) == first_index_of(s@, c, i as int),
        decreases n - i,
    {
        if s.get_char(i) == c {
            return Some(i);
        }
        i = i + 1;
    }
    None
}

/// Reads the package name from the text of the entry crate's `Cargo.toml`, or `None` for a
/// manifest whose `[package].name` value is a lone `"`, which cannot be taken apart.
pub fn checked_entry_crate_package_name(manifest: &str, manifest_path: &str) -> (r: Option<
    Result<String, String>,
>)
    ensures
        match scan_package_name(text_lines(manifest@), None, None) {
            PackageScan::Found(Some(n)) => r == Some(Ok::<String, String>(r->Some_0->Ok_0)) && r->Some_0->Ok_0@ == n,
            PackageScan::Found(None) => r == Some(Err::<String, String>(r->Some_0->Err_0))
                && r->Some_0->Err_0@ == "missing [package].name in "@ + manifest_path@,
            PackageScan::Failed(e) => r == Some(Err::<String, String>(r->Some_0->Err_0)) && r->Some_0->Err_0@ == e,
            PackageScan::Unsliceable => r is None,
        },
{
    let pieces = split_at_char(manifest, '\n');
    proof {
        crate::navigation::lemma_split_on_nonempty(manifest@, '\n');
    }
    let mut count = pieces.len();
    if pieces[count - 1].as_str().unicode_len() == 0 {
        count = count - 1;
    }
    let ghost lines = text_lines(manifest@);
    proof {
        assert(lines =~= strings_view(pieces@).take(count as int));
        assert(lines.skip(0) =~= lines);
    }
    let mut section: Option<String> = None;
    let mut name: Option<String> = None;
    let mut i: usize = 0;
    while i < count
        invariant
            count <= pieces@.len(),
            lines == text_lines(manifest@),
            lines == strings_view(pieces@).take(count as int),
            i <= count,
            scan_package_name(lines, None, None) == scan_package_name(
                lines.skip(i as int),
                crate::navigation::opt_view(section),
                crate::navigation::opt_view(name),
            ),
        decreases count - i,
    {
        let ghost rest = lines.skip(i as int);
        proof {
            assert(rest[0] == pieces@[i as int]@);
            assert(rest.drop_first() =~= lines.skip(i + 1));
        }
        let line = trim_set(pieces[i].as_str(), &TrimSet::Whitespace);
        let len = line.as_str().unicode_len();
        if len == 0 || line.as_str().get_char(0) == '#' {
        } else if line.as_str().get_char(0) == '[' && line.as_str().get_char(len - 1) == ']' {
            section = Some(crate::text::substring(line.as_str(), 1, len - 1));
        } else {
            match find_char_index(line.as_str(), '=') {
                None => {},
                Some(eq) => {
                    let key = trim_set(
                        crate::text::substring(line.as_str(), 0, eq).as_str(),
                        &TrimSet::Whitespace,
                    );
                    let value = trim_set(
                        crate::text::substring(line.as_str(), eq + 1, len).as_str(),
                        &TrimSet::Whitespace,
                    );
                    let in_package = match &section {
                        Some(s) => crate::text::str_eq(s.as_str(), "package"),
                        None => false,
                    };
                    assert(in_package == (crate::navigation::opt_view(section) == Some("package"@)));
                    assert(key@ == trimmed(line@.subrange(0, eq as int), TrimSet::Whitespace));
                    assert(value@ == trimmed(
                        line@.subrange(eq + 1, line@.len() as int),
                        TrimSet::Whitespace,
                    ));
                    if in_package && crate::text::str_eq(key.as_str(), "name") {
                        proof {
                            reveal_strlit("\"");
                            assert("\""@ =~= seq!['"']);
                        }
                        if crate::text::str_eq(value.as_str(), "\"") {
                            proof {
                                assert(line@ == trimmed(rest[0], TrimSet::Whitespace));
                                assert(first_index_of(line@, '=', 0) == eq);
                                assert(value@ == seq!['"']);
                                assert(scan_package_name(
                                    rest,
                                    crate::navigation::opt_view(section),
                                    crate::navigation::opt_view(name),
                                ) is Unsliceable);
                            }
                            return None;
                        }
                        match parse_toml_string(value.as_str()) {
                            Ok(parsed) => {
                                name = Some(parsed);
                            },
                            Err(err) => {
                                proof {
                                    assert(line@ == trimmed(rest[0], TrimSet::Whitespace));
                                    assert(first_index_of(line@, '=', 0) == eq);
                                    assert(toml_string(value@) == Err::<Seq<char>, Seq<char>>(err@));
                                    assert(scan_package_name(
                                        rest,
                                        crate::navigation::opt_view(section),
                                        crate::navigation::opt_view(name),
                                    ) == PackageScan::Failed(err@));
                                }
                                return Some(Err(err));
                            },
                        }
                    }
                },
            }
        }
        i = i + 1;
    }
    match name {
        Some(n) => Some(Ok(n)),
        None => Some(Err(concat2("missing [package].name in ", manifest_path))),
    }
}



/// Reads the package name from the text of the entry crate's `Cargo.toml`, whose path
/// `manifest_path` names in the error for a manifest without one.
pub fn entry_crate_package_name(manifest: &str, manifest_path: &str) -> (r: Result<String, String>)
    requires
        !(scan_package_name(text_lines(manifest@), None, None) is Unsliceable),
    ensures
        match scan_package_name(text_lines(manifest@), None, None) {
            PackageScan::Found(Some(n)) => r is Ok && r->Ok_0@ == n,
            PackageScan::Found(None) => r is Err && r->Err_0@ == "missing [package].name in "@
                + manifest_path@,
            PackageScan::Failed(e) => r is Err && r->Err_0@ == e,
            PackageScan::Unsliceable => false,
        },
{
    match checked_entry_crate_package_name(manifest, manifest_path) {
        Some(r) => r,
        None => Err(concat2("missing [package].name in ", manifest_path)),
    }
}

/// The fields of the showcase app's `Cargo.toml` for an entry crate named `package`.
pub open spec fn cargo_fields(
    config: ShowcaseConfig,
    package: Seq<char>,
    package_version: Seq<char>,
) -> Seq<(Seq<char>, TemplateValueView)> {
    seq![
        ("package_name"@, TemplateValueView::Text(slug(config.project.name@ + "-showcase"@))),
        ("package_version"@, TemplateValueView::Text(package_version)),
        ("entry_crate_package_name"@, TemplateValueView::Text(package)),
        ("entry_crate_dependency_path"@, TemplateValueView::Text(
            quoted_escape(relative_path(config.project.showcase_crate@, config.project.entry_crate@)),
        )),
    ]
}

/// Renders the showcase app's `Cargo.toml`, given the text of the entry crate's own
/// manifest (found at `entry_manifest_path`) and the version of this tool.
pub fn render_showcase_app_cargo_toml(
    config: &ShowcaseConfig,
    entry_manifest: &str,
    entry_manifest_path: &str,
    package_version: &str,
) -> (r: Result<String, String>)
    requires
        !(scan_package_name(text_lines(entry_manifest@), None, None) is Unsliceable),
    ensures
        match scan_package_name(text_lines(entry_manifest@), None, None) {
            PackageScan::Found(Some(n)) => rendered(
                ShowcaseTemplate::Cargo,
                cargo_fields(*config, n, package_version@),
                r,
            ),
            PackageScan::Found(None) => r is Err && r->Err_0@ == "missing [package].name in "@
                + entry_manifest_path@,
            PackageScan::Failed(e) => r is Err && r->Err_0@ == e,
            PackageScan::Unsliceable => false,
        },
{
    let package_name = slugify_title(concat2(config.project.name.as_str(), "-showcase").as_str());
    let entry_crate_package_name = match entry_crate_package_name(entry_manifest, entry_manifest_path) {
        Ok(name) => name,
        Err(err) => {
            return Err(err);
        },
    };
    let app_dir = showcase_app_dir(config);
    let dependency_path = match relative_dependency_path(app_dir.as_str(), config.project.entry_crate.as_str()) {
        Ok(path) => path,
        Err(err) => {
            return Err(err);
        },
    };
    let ghost package = entry_crate_package_name@;
    let mut context: Vec<TemplateField> = Vec::new();
    context.push(text_field("package_name", package_name));
    context.push(text_field("package_version", package_version.to_owned()));
    context.push(text_field("entry_crate_package_name", entry_crate_package_name));
    context.push(text_field("entry_crate_dependency_path", escape_toml_string(dependency_path.as_str())));
    proof {
        assert(fields_view(context@) =~= cargo_fields(*config, package, package_version@));
    }
    render_template(ShowcaseTemplate::Cargo, SHOWCASE_CARGO_TEMPLATE, &context)
}

} // verus!
