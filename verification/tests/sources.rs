use dioxus_showcase::source_walk::{is_rust_source_path, SourceWalk};
use dioxus_showcase::rust_source::{
    discover_components_in_source, discover_providers_in_source, missing_module_path_message,
    module_candidates, module_declarations_in_source, parse_source_file, unresolved_module_message,
};

#[test]
fn discover_components_in_file_reads_story_metadata() {
    let source = r#"
#[story(title = "Button/Primary", tags = ["atoms", "button"])]
fn button_primary() -> Element { todo!() }

fn helper() {}
"#;
    let stories = discover_components_in_source("/c/src", "/c/src/button.rs", "/abs/c/src/button.rs", source)
        .expect("discover components");
    assert_eq!(stories.len(), 1);
    assert_eq!(stories[0].id, "button-primary");
    assert_eq!(stories[0].title, "Button/Primary");
    assert_eq!(stories[0].tags, vec!["atoms".to_owned(), "button".to_owned()]);
    assert_eq!(stories[0].item_path, "button::button_primary");
    assert_eq!(stories[0].renderer_symbol, "__dioxus_showcase_render__button_primary");
    assert_eq!(stories[0].source_path, "/abs/c/src/button.rs");
}

#[test]
fn inline_modules_in_source_extend_the_item_path() {
    let source = "mod inner { #[showcase(tags = [])] fn Card() {} }\n";
    let stories = discover_components_in_source("/c/src", "/c/src/lib.rs", "/c/src/lib.rs", source)
        .expect("discover components");
    assert_eq!(stories.len(), 1);
    assert_eq!(stories[0].item_path, "inner::Card");
    assert_eq!(stories[0].title, "Card");
}

#[test]
fn discover_providers_in_file_extracts_ordering_from_source() {
    let source = "#[provider(order = -2)]\n#[component]\nfn Shell(children: Element) -> Element { children }\n";
    let providers = discover_providers_in_source("/c/src", "/c/src/provider.rs", "/abs/provider.rs", source)
        .expect("discover providers");
    assert_eq!(providers.len(), 1);
    assert_eq!(providers[0].item_path, "provider::Shell");
    assert_eq!(providers[0].wrap_symbol, "__dioxus_showcase_wrap__Shell");
    assert_eq!(providers[0].order, -2);
}

#[test]
fn a_retired_provider_index_is_rejected_from_source() {
    let source = "#[provider(index = 0)]\nfn Outer(children: Element) -> Element { children }\n";
    let err = discover_providers_in_source("/c/src", "/c/src/lib.rs", "/c/src/lib.rs", source).unwrap_err();
    assert!(err.starts_with("invalid provider attribute in /c/src/lib.rs: "), "{err}");
    assert!(err.contains("order = <integer>"), "{err}");
}

#[test]
fn unparsable_source_is_reported_with_its_path() {
    let err = discover_components_in_source("/c/src", "/c/src/broken.rs", "/c/src/broken.rs", "fn (")
        .unwrap_err();
    assert!(err.starts_with("failed to parse Rust source /c/src/broken.rs: "), "{err}");
    let file = parse_source_file("/c/src/broken.rs", Ok("/x".to_owned()), Ok("fn (".to_owned()));
    assert!(file.items.is_err());
    let unread = parse_source_file("/c/src/gone.rs", Ok("/x".to_owned()), Err("failed to read".to_owned()));
    assert_eq!(unread.items.err(), Some("failed to read".to_owned()));
}

#[test]
fn module_declarations_follow_only_body_less_modules() {
    let source = "mod components;\n#[path = \"other/place.rs\"]\nmod moved;\nmod inline { mod nested; }\n#[path(x)]\nmod broken;\n";
    let declarations = module_declarations_in_source("src/lib.rs", source).expect("parse");
    let names: Vec<&str> = declarations.iter().map(|d| d.name.as_str()).collect();
    assert_eq!(names, vec!["components", "moved", "broken"]);
    assert_eq!(declarations[0].path_override, Ok(None));
    assert_eq!(declarations[1].path_override, Ok(Some("other/place.rs".to_owned())));
    assert_eq!(
        declarations[2].path_override,
        Err("invalid #[path = ...] attribute: expected name-value syntax".to_owned())
    );
}

#[test]
fn a_non_string_path_override_is_rejected() {
    let declarations = module_declarations_in_source("src/lib.rs", "#[path = 3]\nmod odd;\n").expect("parse");
    assert_eq!(
        declarations[0].path_override,
        Err("invalid #[path = ...] attribute: expected string literal".to_owned())
    );
}

#[test]
fn module_candidates_follow_the_file_stem_rule() {
    assert_eq!(module_candidates("crate/src", "lib", "components", None), vec![
        "crate/src/components.rs".to_owned(),
        "crate/src/components/mod.rs".to_owned(),
    ]);
    assert_eq!(module_candidates("crate/src", "components", "button", None), vec![
        "crate/src/components/button.rs".to_owned(),
        "crate/src/components/button/mod.rs".to_owned(),
    ]);
    assert_eq!(module_candidates("crate/src", "mod", "x", Some("../y.rs")), vec!["crate/src/../y.rs".to_owned()]);
    assert_eq!(module_candidates("", "main", "x", None), vec!["x.rs".to_owned(), "x/mod.rs".to_owned()]);
}

#[test]
fn module_resolution_errors_name_the_module_and_file() {
    assert_eq!(
        unresolved_module_message("gone", "src/lib.rs"),
        "failed to resolve module 'gone' declared in src/lib.rs"
    );
    assert_eq!(
        missing_module_path_message("moved", "src/lib.rs", "src/other.rs"),
        "module 'moved' declared in src/lib.rs points to missing path src/other.rs"
    );
}

#[test]
fn an_unknown_story_argument_with_a_value_stops_discovery() {
    let source = "#[showcase(title = \"A\", color = \"red\")]\nfn A() {}\n";
    let err = discover_components_in_source("/c/src", "/c/src/lib.rs", "/c/src/lib.rs", source).unwrap_err();
    assert_eq!(err, "invalid showcase attribute in /c/src/lib.rs: expected `,`");
}

#[test]
fn a_story_attribute_without_parentheses_is_refused() {
    let source = "#[showcase]\nfn A() {}\n";
    let err = discover_components_in_source("/c/src", "/c/src/lib.rs", "/c/src/lib.rs", source).unwrap_err();
    assert_eq!(
        err,
        "invalid showcase attribute in /c/src/lib.rs: expected attribute arguments in parentheses: #[showcase(...)]"
    );
}

#[test]
fn list_arguments_and_bare_known_keys_are_refused() {
    let list = "#[showcase(title = \"A\", extra(1))]\nfn A() {}\n";
    let err = discover_components_in_source("/c/src", "/c/src/lib.rs", "/c/src/lib.rs", list).unwrap_err();
    assert_eq!(err, "invalid showcase attribute in /c/src/lib.rs: expected `,`");
    let bare = "#[story(title)]\nfn a() {}\n";
    let err = discover_components_in_source("/c/src", "/c/src/lib.rs", "/c/src/lib.rs", bare).unwrap_err();
    assert_eq!(err, "invalid showcase attribute in /c/src/lib.rs: expected `=`");
    let skipped = "#[showcase(inline, title = \"A\")]\nfn A() {}\n";
    let stories = discover_components_in_source("/c/src", "/c/src/lib.rs", "/c/src/lib.rs", skipped).expect("ok");
    assert_eq!(stories[0].title, "A");
}

#[test]
fn only_paths_with_an_rs_extension_are_rust_sources() {
    assert!(is_rust_source_path("src/lib.rs"));
    assert!(is_rust_source_path("src/alt/custom_button.rs"));
    assert!(is_rust_source_path("./main.rs"));
    assert!(is_rust_source_path("src/a..rs"));
    assert!(is_rust_source_path("src/button.rs/"));
    assert!(is_rust_source_path("src/button.rs/."));
    assert!(!is_rust_source_path("src/notes.txt"));
    assert!(!is_rust_source_path("src/.rs"));
    assert!(!is_rust_source_path("src/lib.RS"));
    assert!(!is_rust_source_path("src/lib"));
    assert!(!is_rust_source_path("src/.."));
    assert!(!is_rust_source_path("/"));
    assert!(!is_rust_source_path(""));
}

#[test]
fn a_walk_lists_each_reached_rust_source_once() {
    let mut walk = SourceWalk::new();
    assert!(walk.visit("/c/src/lib.rs".to_owned(), "src/lib.rs".to_owned()));
    assert!(walk.visit("/c/src/button.rs".to_owned(), "src/button.rs".to_owned()));
    assert!(!walk.visit("/c/src/lib.rs".to_owned(), "src/./lib.rs".to_owned()));
    assert!(!walk.visit("/c/src/notes.txt".to_owned(), "src/notes.txt".to_owned()));
    assert!(!walk.visit("/c/src/notes.txt".to_owned(), "src/notes.txt".to_owned()));
    assert_eq!(walk.files, vec!["src/lib.rs".to_owned(), "src/button.rs".to_owned()]);
    assert_eq!(
        walk.visited,
        vec!["/c/src/lib.rs".to_owned(), "/c/src/button.rs".to_owned(), "/c/src/notes.txt".to_owned()]
    );
}

fn attribute_error(attribute: &str) -> String {
    let source = format!("{attribute}\nfn A() {{}}\n");
    discover_components_in_source("/c/src", "/c/src/lib.rs", "/c/src/lib.rs", &source).unwrap_err()
}

#[test]
fn a_value_read_only_in_part_stops_at_what_follows_it() {
    let prefix = "invalid showcase attribute in /c/src/lib.rs: ";
    assert_eq!(attribute_error("#[showcase(title = \"x\" + \"y\")]"), format!("{prefix}expected `,`"));
    assert_eq!(attribute_error("#[showcase(title = \"x\".to_owned())]"), format!("{prefix}expected `,`"));
    assert_eq!(attribute_error("#[showcase(name = \"x\" as T)]"), format!("{prefix}expected `,`"));
    assert_eq!(attribute_error("#[showcase(component = ui::Button + 1)]"), format!("{prefix}expected `,`"));
    assert_eq!(attribute_error("#[showcase(component = make(ui::Button))]"), format!("{prefix}expected `,`"));
}

#[test]
fn a_value_of_the_wrong_kind_names_what_was_expected() {
    let prefix = "invalid showcase attribute in /c/src/lib.rs: ";
    assert_eq!(attribute_error("#[showcase(title = 12)]"), format!("{prefix}expected string literal"));
    assert_eq!(attribute_error("#[showcase(title = a + \"x\")]"), format!("{prefix}expected string literal"));
    assert_eq!(attribute_error("#[showcase(component = \"Button\")]"), format!("{prefix}expected identifier"));
    assert_eq!(attribute_error("#[showcase(component = -x)]"), format!("{prefix}expected identifier"));
}
