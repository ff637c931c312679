use dioxus_showcase::commands::{
    config_from_answers, default_entry_crate, init_defaults, parse_port, prompt_answer,
    sort_stories_by_title,
};
use dioxus_showcase::config::ShowcaseConfig;
use dioxus_showcase::dev::{no_available_port_message, port_candidates};
use dioxus_showcase::discovery::{
    collect_stories_from_items, component_name_from_path, discover_components,
    discover_providers, parse_tags_array, provider_attr_order, render_module_path,
    story_attr_meta, ParsedSourceFile, SourceAttribute, SourceItem, StoryAttrMeta,
};
use dioxus_showcase::manifest::StoryDefinition;
use dioxus_showcase::meta::{MetaExpr, MetaItem};
use dioxus_showcase::paths::{module_prefix_from_path, relative_dependency_path};
use dioxus_showcase::registration::{
    collect_stories, provider_order, sort_providers, sorted_duplicate_ids, story_index, story_order,
};
use dioxus_showcase::runtime::ProviderDefinition;
use dioxus_showcase::sorting::ProviderKey;

fn story_attr(last: &str, title: Option<&str>, tags: &[&str]) -> SourceAttribute {
    SourceAttribute {
        last_segment: Some(last.to_owned()),
        story_args: Ok(StoryAttrMeta {
            title: title.map(str::to_owned),
            tags: tags.iter().map(|t| (*t).to_owned()).collect(),
        }),
        provider_args: Ok(None),
    }
}

fn provider_attr(order: Option<i32>) -> SourceAttribute {
    SourceAttribute {
        last_segment: Some("provider".to_owned()),
        story_args: Ok(StoryAttrMeta { title: None, tags: vec![] }),
        provider_args: Ok(order),
    }
}

fn function(name: &str, attributes: Vec<SourceAttribute>) -> SourceItem {
    SourceItem::Function { name: name.to_owned(), attributes }
}

fn file(path: &str, items: Vec<SourceItem>) -> ParsedSourceFile {
    ParsedSourceFile {
        path: path.to_owned(),
        source_path: Ok(format!("/abs{path}")),
        items: Ok(items),
    }
}

#[test]
fn discovered_components_carry_their_metadata() {
    let files = vec![file(
        "/crate/src/button.rs",
        vec![function("Button", vec![story_attr("showcase", Some("Atoms/Button"), &["atoms", "button"])])],
    )];
    let stories = discover_components("/crate/src", &files).expect("discover components");
    assert_eq!(stories.len(), 1);
    assert_eq!(stories[0].id, "atoms-button");
    assert_eq!(stories[0].title, "Atoms/Button");
    assert_eq!(stories[0].tags, vec!["atoms".to_owned(), "button".to_owned()]);
    assert_eq!(stories[0].source_path, "/abs/crate/src/button.rs");
    assert_eq!(stories[0].item_path, "button::Button");
    assert_eq!(stories[0].renderer_symbol, "__dioxus_showcase_render__Button");
}

#[test]
fn discovered_titles_default_to_the_function_name() {
    let files = vec![file("/c/src/badge.rs", vec![function("Badge", vec![story_attr("story", None, &[])])])];
    let stories = discover_components("/c/src", &files).expect("discover components");
    assert_eq!(stories[0].title, "Badge");
    assert_eq!(stories[0].id, "badge");
}

#[test]
fn inline_modules_extend_the_item_path_and_lib_rs_adds_nothing() {
    let items = vec![
        SourceItem::Other,
        SourceItem::InlineModule {
            name: "inner".to_owned(),
            items: vec![function("Card", vec![story_attr("showcase", None, &[])])],
        },
        function("plain", vec![]),
    ];
    let mut out: Vec<StoryDefinition> = Vec::new();
    collect_stories_from_items("/c/src", "/c/src/lib.rs", "/c/src/lib.rs", &vec![], &items, &mut out)
        .expect("collect");
    assert_eq!(out.len(), 1);
    assert_eq!(out[0].item_path, "inner::Card");
}

#[test]
fn the_first_attribute_error_stops_discovery() {
    let mut broken = story_attr("showcase", None, &[]);
    broken.story_args = Err("expected string literal".to_owned());
    let files = vec![
        file("/c/src/a.rs", vec![function("A", vec![story_attr("showcase", None, &[])])]),
        file("/c/src/b.rs", vec![function("B", vec![broken])]),
    ];
    assert_eq!(
        discover_components("/c/src", &files),
        Err("invalid showcase attribute in /c/src/b.rs: expected string literal".to_owned())
    );
}

#[test]
fn a_file_outside_the_source_directory_is_reported() {
    let files = vec![file("/elsewhere/a.rs", vec![function("A", vec![story_attr("showcase", None, &[])])])];
    assert_eq!(
        discover_components("/c/src", &files),
        Err("failed to compute module path for /elsewhere/a.rs relative to /c/src: prefix not found".to_owned())
    );
}

#[test]
fn discovered_providers_are_sorted_by_order_then_file_order() {
    let files = vec![
        file("/c/src/provider.rs", vec![function("Shell", vec![provider_attr(Some(2))])]),
        file(
            "/c/src/more.rs",
            vec![function("Theme", vec![provider_attr(None)]), function("Outer", vec![provider_attr(Some(-1))])],
        ),
    ];
    let providers = discover_providers("/c/src", &files).expect("discover providers");
    let names: Vec<&str> = providers.iter().map(|p| p.item_path.as_str()).collect();
    assert_eq!(names, vec!["more::Outer", "more::Theme", "provider::Shell"]);
    assert_eq!(providers[2].wrap_symbol, "__dioxus_showcase_wrap__Shell");
    assert_eq!(providers[2].order, 2);
}

#[test]
fn module_paths_follow_the_directory_layout() {
    assert_eq!(
        render_module_path("/c/src", "/c/src/components/button.rs", &vec!["Button".to_owned()]),
        Ok("components::button::Button".to_owned())
    );
    assert_eq!(
        module_prefix_from_path("/c/src", "/c/src/components/mod.rs"),
        Ok(vec!["components".to_owned()])
    );
    assert_eq!(module_prefix_from_path("src", "src/main.rs"), Ok(vec![]));
    assert_eq!(module_prefix_from_path("src", "src/a.b.rs"), Ok(vec!["a.b".to_owned()]));
}

#[test]
fn tags_must_be_an_array_of_string_literals() {
    assert_eq!(
        parse_tags_array(&MetaExpr::Array(vec![MetaExpr::Str("a".to_owned())])),
        Ok(vec!["a".to_owned()])
    );
    assert_eq!(
        parse_tags_array(&MetaExpr::Str("a".to_owned())),
        Err("showcase tags must be an array of string literals".to_owned())
    );
    assert_eq!(
        parse_tags_array(&MetaExpr::Array(vec![MetaExpr::OtherLit])),
        Err("showcase tags must contain only string literals".to_owned())
    );
    assert_eq!(component_name_from_path(&vec!["ui".to_owned(), "Button".to_owned()]), Ok("Button".to_owned()));
}

#[test]
fn relative_dependency_paths_walk_up_then_down() {
    assert_eq!(relative_dependency_path("/a/b/showcase", "/a/b"), Ok("..".to_owned()));
    assert_eq!(relative_dependency_path("showcase", "web"), Ok("../web".to_owned()));
    assert_eq!(relative_dependency_path("showcase", "."), Ok("../.".to_owned()));
    assert_eq!(relative_dependency_path("a/b", "a/b/"), Ok(".".to_owned()));
    assert_eq!(relative_dependency_path("rel", "/abs/x"), Ok("/abs/x".to_owned()));
}

fn def(id: &str, item_path: &str, title: &str) -> StoryDefinition {
    StoryDefinition {
        id: id.to_owned(),
        title: title.to_owned(),
        source_path: "src/lib.rs".to_owned(),
        item_path: item_path.to_owned(),
        renderer_symbol: "__dioxus_showcase_render__demo".to_owned(),
        tags: vec![],
    }
}

#[test]
fn collect_stories_sorts_by_id_regardless_of_registration_order() {
    let forwards = [def("zeta", "krate::a", "zeta"), def("alpha", "krate::a", "alpha"), def("mid", "krate::b", "mid")];
    let order = story_order(&forwards);
    let ids: Vec<&str> = order.iter().map(|&i| forwards[i].id.as_str()).collect();
    assert_eq!(ids, vec!["alpha", "mid", "zeta"]);
}

#[test]
fn collect_stories_orders_colliding_ids_deterministically() {
    let forwards = [def("alpha", "krate::zzz", "alpha"), def("alpha", "krate::aaa", "alpha")];
    let order = story_order(&forwards);
    let paths: Vec<&str> = order.iter().map(|&i| forwards[i].item_path.as_str()).collect();
    assert_eq!(paths, vec!["krate::aaa", "krate::zzz"]);
}

#[test]
fn collect_stories_reports_duplicate_ids_instead_of_panicking() {
    let sorted = [def("alpha", "krate::a", "alpha"), def("alpha", "krate::b", "alpha"), def("alpha", "krate::c", "alpha"), def("zeta", "krate::a", "zeta")];
    assert_eq!(sorted_duplicate_ids(&sorted), vec!["alpha".to_owned()]);
    assert!(sorted_duplicate_ids(&sorted[2..]).is_empty());
    assert!(sorted_duplicate_ids(&[]).is_empty());
}

#[test]
fn sort_providers_orders_by_order_then_module_path() {
    let key = |order: i32, path: &str| ProviderKey { order, item_path: path.to_owned() };
    let keys = vec![key(5, "krate::Router"), key(0, "krate::B"), key(-10, "krate::Theme"), key(0, "krate::A")];
    let order = provider_order(&keys);
    let paths: Vec<&str> = order.iter().map(|&i| keys[i].item_path.as_str()).collect();
    assert_eq!(paths, vec!["krate::Theme", "krate::A", "krate::B", "krate::Router"]);
}

#[test]
fn stories_sort_by_title_keeping_ties_in_order() {
    let stories = [def("2", "k::b", "B"), def("1", "k::a", "A"), def("3", "k::c", "B")];
    let sorted = sort_stories_by_title(&stories);
    let ids: Vec<&str> = sorted.iter().map(|d| d.id.as_str()).collect();
    assert_eq!(ids, vec!["1", "2", "3"]);
}

#[test]
fn init_proposes_defaults_from_the_working_directory() {
    assert_eq!(default_entry_crate(true, true, true), ".");
    assert_eq!(default_entry_crate(true, false, true), "examples/basic");
    assert_eq!(default_entry_crate(false, false, false), "web");
    assert_eq!(prompt_answer("  \n", "web"), "web");
    assert_eq!(prompt_answer("  ui \n", "web"), "ui");
    let defaults = init_defaults(None, "web");
    assert_eq!(defaults, ShowcaseConfig::default());
}

#[test]
fn a_port_answer_must_be_a_port() {
    assert_eq!(parse_port("6111"), Ok(6111));
    assert_eq!(parse_port("+80"), Ok(80));
    assert_eq!(parse_port("65536"), Err("invalid port provided".to_owned()));
    assert_eq!(parse_port("-1"), Err("invalid port provided".to_owned()));
    assert_eq!(parse_port(""), Err("invalid port provided".to_owned()));
    let defaults = init_defaults(Some("demo"), ".");
    let config = config_from_answers(
        "demo".to_owned(),
        ".".to_owned(),
        "showcase".to_owned(),
        "0.0.0.0".to_owned(),
        "7000",
        "dist".to_owned(),
        &defaults,
    )
    .expect("valid answers");
    assert_eq!(config.dev.port, 7000);
    assert_eq!(config.build.base_path, "/");
}

#[test]
fn port_search_covers_the_preferred_port_and_its_successors() {
    assert_eq!(port_candidates(6111, 2), vec![6111, 6112, 6113]);
    assert_eq!(port_candidates(65534, 20), vec![65534, 65535]);
    assert_eq!(
        no_available_port_message("127.0.0.1", 6111, 6131),
        "no available port found for host 127.0.0.1 in range 6111-6131"
    );
}

fn named(key: &str, value: MetaExpr) -> MetaItem {
    MetaItem::NameValue { key: Some(key.to_owned()), value }
}

#[test]
fn story_attribute_arguments_give_title_and_tags() {
    let meta = story_attr_meta(
        true,
        &Ok(vec![
            named("title", MetaExpr::Str("Atoms/Button".to_owned())),
            named("tags", MetaExpr::Array(vec![MetaExpr::Str("atoms".to_owned())])),
        ]),
    )
    .expect("valid story arguments");
    assert_eq!(meta.title, Some("Atoms/Button".to_owned()));
    assert_eq!(meta.tags, vec!["atoms".to_owned()]);
}

#[test]
fn a_story_attribute_refuses_the_removed_component_argument() {
    let args = Ok(vec![named("component", MetaExpr::Path(vec!["ui".to_owned(), "Button".to_owned()]))]);
    let err = story_attr_meta(true, &args).err().expect("refused");
    assert_eq!(err, "story attributes no longer accept component = ...; use title = \"...\"");
    let allowed = Ok(vec![named("component", MetaExpr::Path(vec!["ui".to_owned(), "Button".to_owned()]))]);
    assert!(story_attr_meta(false, &allowed).is_ok());
}

#[test]
fn provider_attributes_read_the_order_key() {
    assert_eq!(provider_attr_order(&Ok(vec![])), Ok(Some(0)));
    assert_eq!(
        provider_attr_order(&Ok(vec![named("order", MetaExpr::Neg(Box::new(MetaExpr::Int("10".to_owned()))))])),
        Ok(Some(-10))
    );
    let err = provider_attr_order(&Ok(vec![named("index", MetaExpr::Int("0".to_owned()))])).err().expect("refused");
    assert!(err.contains("order = <integer>"), "{err}");
}

#[test]
fn story_lookup_finds_a_registered_id_and_misses_an_unknown_one() {
    let stories = [def("atoms-button", "krate::Button", "Atoms/Button")];
    assert_eq!(story_index(&stories, "atoms-button"), Some(0));
    assert_eq!(story_index(&stories, "nope"), None);
    assert!(!stories.is_empty());
}

#[test]
fn story_lookup_on_a_duplicated_id_resolves_to_the_first_registered_match() {
    let stories = [def("dup", "krate::first", "First/Copy"), def("dup", "krate::second", "Second/Copy")];
    let found = story_index(&stories, "dup").expect("registered id");
    assert_eq!(stories[found].title, "First/Copy");
    assert_eq!(sorted_duplicate_ids(&stories), vec!["dup".to_owned()]);
}

#[test]
fn collected_stories_are_sorted_and_report_each_colliding_id_once() {
    let registered = [
        def("zeta", "krate::z", "Zeta"),
        def("alpha", "krate::b", "Alpha"),
        def("alpha", "krate::a", "Alpha"),
        def("mid", "krate::m", "Mid"),
        def("alpha", "krate::c", "Alpha"),
    ];
    let collected = collect_stories(&registered);
    let keys: Vec<(&str, &str)> =
        collected.stories.iter().map(|s| (s.id.as_str(), s.item_path.as_str())).collect();
    assert_eq!(keys, vec![
        ("alpha", "krate::a"),
        ("alpha", "krate::b"),
        ("alpha", "krate::c"),
        ("mid", "krate::m"),
        ("zeta", "krate::z"),
    ]);
    assert_eq!(collected.duplicate_ids, vec!["alpha".to_owned()]);
}

#[test]
fn sorted_providers_wrap_lowest_order_outermost() {
    let provider = |order: i32, path: &str| ProviderDefinition {
        source_path: "src/lib.rs".to_owned(),
        item_path: path.to_owned(),
        wrap_symbol: format!("__dioxus_showcase_wrap__{path}"),
        order,
    };
    let sorted = sort_providers(&[provider(5, "krate::Router"), provider(0, "krate::B"), provider(-10, "krate::Theme"), provider(0, "krate::A")]);
    let paths: Vec<&str> = sorted.iter().map(|p| p.item_path.as_str()).collect();
    assert_eq!(paths, vec!["krate::Theme", "krate::A", "krate::B", "krate::Router"]);
}

#[test]
fn story_attribute_arguments_follow_the_discovery_parser() {
    assert_eq!(
        story_attr_meta(false, &Ok(vec![named("title", MetaExpr::Int("12".to_owned()))])).err(),
        Some("expected string literal".to_owned())
    );
    assert_eq!(
        story_attr_meta(false, &Ok(vec![named("color", MetaExpr::Str("red".to_owned()))])).err(),
        Some("expected `,`".to_owned())
    );
    assert_eq!(
        story_attr_meta(true, &Ok(vec![named("tags", MetaExpr::Array(vec![MetaExpr::Int("1".to_owned())]))])).err(),
        Some("showcase tags must contain only string literals".to_owned())
    );
    assert_eq!(
        story_attr_meta(true, &Ok(vec![named("name", MetaExpr::Str("x".to_owned()))])).err(),
        Some("story attributes no longer accept name = ...; include the full path in title = \"...\"".to_owned())
    );
}
