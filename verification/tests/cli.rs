use dioxus_showcase::check::{profile_sets_lto, profiles_missing_lto};
use dioxus_showcase::config::ShowcaseConfig;
use dioxus_showcase::discovery::{
    describe_duplicates, duplicate_story_ids, showcase_provider_symbol, showcase_renderer_symbol,
    showcase_story_symbol, validate_component_ids,
};
use dioxus_showcase::manifest::StoryDefinition;
use dioxus_showcase::runtime::ProviderDefinition;
use dioxus_showcase::scaffold::stable_generation_token;
use dioxus_showcase::slug::slugify_title;
use dioxus_showcase::templates::{
    render_generated_runtime_rs, render_showcase_app_cargo_toml, render_showcase_app_dioxus_toml,
    render_showcase_app_main_rs,
};

fn story(id: &str, title: &str, item_path: &str) -> StoryDefinition {
    StoryDefinition {
        id: id.to_owned(),
        title: title.to_owned(),
        source_path: "/tmp/lib.rs".to_owned(),
        item_path: item_path.to_owned(),
        renderer_symbol: "__dioxus_showcase_render__demo".to_owned(),
        tags: vec![],
    }
}

#[test]
fn lto_is_detected_only_inside_the_profile_that_declares_it() {
    let manifest = "[package]\n\
                    name = \"app\"\n\
                    lto = true\n\
                    \n\
                    [profile.dev]\n\
                    lto = \"thin\"\n\
                    \n\
                    [profile.release]\n\
                    strip = true\n";

    assert!(profile_sets_lto(manifest, "dev"));
    assert!(!profile_sets_lto(manifest, "release"));
    assert!(!profile_sets_lto("", "dev"));
}

#[test]
fn a_manifest_without_lto_names_both_profiles() {
    assert_eq!(profiles_missing_lto(Some("[package]\nname = \"app\"\n")), vec!["dev", "release"]);
    assert!(profiles_missing_lto(Some(
        "[profile.dev]\nlto = \"thin\"\n\n[profile.release]\nlto = true\nstrip = true\n"
    ))
    .is_empty());
}

#[test]
fn a_missing_manifest_is_not_reported_as_a_missing_profile() {
    assert!(profiles_missing_lto(None).is_empty());
}

#[test]
fn duplicate_diagnostics_name_every_colliding_story() {
    let stories = vec![
        story("atoms-button", "Atoms/Button", "ui::Button"),
        story("atoms-button", "Atoms Button", "ui::button_alt"),
        story("atoms-card", "Atoms/Card", "ui::Card"),
    ];

    let message = describe_duplicates(&["atoms-button".to_owned()], &stories);

    assert!(message.contains("1 duplicate showcase id(s) found"), "{message}");
    assert!(message.contains("duplicate id 'atoms-button'"), "{message}");
    assert!(message.contains("'Atoms/Button' (ui::Button)"), "{message}");
    assert!(message.contains("'Atoms Button' (ui::button_alt)"), "{message}");
    assert!(!message.contains("atoms-card"), "{message}");
}

#[test]
fn duplicate_diagnostics_are_exact() {
    let stories = vec![
        story("a", "A", "k::a"),
        story("b", "B", "k::b"),
        story("a", "A2", "k::a2"),
        story("b", "B2", "k::b2"),
    ];
    let ids = duplicate_story_ids(&stories);
    assert_eq!(ids, vec!["a".to_owned(), "b".to_owned()]);
    assert_eq!(
        describe_duplicates(&ids, &stories),
        "2 duplicate showcase id(s) found. Story ids come from the title, so two titles that differ only in punctuation or case collide:\n  duplicate id 'a' claimed by 'A' (k::a), 'A2' (k::a2)\n  duplicate id 'b' claimed by 'B' (k::b), 'B2' (k::b2)"
    );
    assert!(duplicate_story_ids(&stories[..2]).is_empty());
}

#[test]
fn renderer_symbol_is_derived_from_component_name() {
    assert_eq!(showcase_renderer_symbol("Button"), "__dioxus_showcase_render__Button");
    assert_eq!(
        showcase_story_symbol("__dioxus_showcase_render__Button"),
        "__dioxus_showcase_story__Button"
    );
    assert_eq!(showcase_provider_symbol("Shell"), "__dioxus_showcase_wrap__Shell");
}

#[test]
fn story_symbol_replaces_only_the_first_prefix() {
    assert_eq!(
        showcase_story_symbol("x__dioxus_showcase_render____dioxus_showcase_render__"),
        "x__dioxus_showcase_story____dioxus_showcase_render__"
    );
    assert_eq!(showcase_story_symbol("plain"), "plain");
}

#[test]
fn slugify_title_normalizes_separator_runs() {
    assert_eq!(slugify_title("Atoms/Button/Default"), "atoms-button-default");
    assert_eq!(slugify_title("  Forms   Input  "), "forms-input");
    assert_eq!(slugify_title("Hello___World"), "hello-world");
}

#[test]
fn slugify_title_is_idempotent_on_examples() {
    for title in ["Ünïcode -- Title!", "--a--b--", "", "ALLCAPS", "x/y z"] {
        let once = slugify_title(title);
        assert_eq!(slugify_title(&once), once);
        assert!(!once.starts_with('-') && !once.ends_with('-') && !once.contains("--"));
    }
    assert_eq!(slugify_title("Ünïcode -- Title!"), "n-code-title");
}

#[test]
fn duplicate_story_ids_are_rejected() {
    let stories = vec![
        StoryDefinition {
            id: "atoms-button".to_owned(),
            title: "Atoms/Button".to_owned(),
            source_path: "/tmp/a/button.rs".to_owned(),
            item_path: "a::button".to_owned(),
            renderer_symbol: "button".to_owned(),
            tags: vec![],
        },
        StoryDefinition {
            id: "atoms-button".to_owned(),
            title: "Atoms/Button/Alt".to_owned(),
            source_path: "/tmp/b/button_alt.rs".to_owned(),
            item_path: "b::button_alt".to_owned(),
            renderer_symbol: "button_alt".to_owned(),
            tags: vec![],
        },
    ];

    let err = validate_component_ids(&stories).expect_err("duplicate id should error");
    assert!(err.contains("duplicate showcase id 'atoms-button'"));
    assert_eq!(err, "duplicate showcase id 'atoms-button' found for title 'Atoms/Button/Alt'");
    assert!(validate_component_ids(&stories[..1]).is_ok());
}

fn button_story() -> StoryDefinition {
    StoryDefinition {
        id: "atoms-button".to_owned(),
        title: "Atoms/Button".to_owned(),
        source_path: "/workspace/src/button.rs".to_owned(),
        item_path: "button_variants::Button".to_owned(),
        renderer_symbol: "__dioxus_showcase_render__Button".to_owned(),
        tags: vec!["atoms".to_owned()],
    }
}

fn shell_provider() -> ProviderDefinition {
    ProviderDefinition {
        source_path: "src/provider.rs".to_owned(),
        item_path: "provider::Shell".to_owned(),
        wrap_symbol: "__dioxus_showcase_wrap__Shell".to_owned(),
        order: 1,
    }
}

#[test]
fn stable_generation_token_is_deterministic() {
    let stories = vec![button_story()];

    let first = stable_generation_token(&stories, &[]);
    let second = stable_generation_token(&stories, &[]);

    assert_eq!(first, second);
    assert!(first.starts_with("manifest-"));

    let providers = vec![shell_provider()];
    assert_ne!(first, stable_generation_token(&stories, &providers));
}

#[test]
fn the_generation_token_is_unchanged_by_the_index_to_order_rename() {
    let stories = vec![button_story()];

    assert_eq!(stable_generation_token(&stories, &[]), "manifest-ce76a41f02cc03a2");

    let providers = vec![shell_provider()];
    assert_eq!(stable_generation_token(&stories, &providers), "manifest-6e737d1109715e39");
}

#[test]
fn a_negative_order_hashes_its_twos_complement_bytes() {
    let mut provider = shell_provider();
    provider.order = -1;
    let token = stable_generation_token(&[], &[provider]);
    assert_eq!(token.len(), "manifest-".len() + 16);
    assert_ne!(token, stable_generation_token(&[], &[shell_provider()]));
}

#[test]
fn generated_runtime_is_a_generation_token_and_nothing_else() {
    let runtime = render_generated_runtime_rs("gen-1").expect("render runtime");

    assert!(runtime.contains("pub const SHOWCASE_GENERATION: &str = \"gen-1\";"));
    assert!(!runtime.contains("__dioxus_showcase_"));
    assert!(!runtime.contains("ShowcaseComponentDefinition"));
    assert!(!runtime.contains("showcase_components"));
    assert!(!runtime.contains("story_providers"));
    assert_eq!(runtime.lines().count(), 2);
}

#[test]
fn generated_runtime_escapes_the_token() {
    let runtime = render_generated_runtime_rs("a\"b\\c").expect("render runtime");
    assert!(runtime.contains("pub const SHOWCASE_GENERATION: &str = \"a\\\"b\\\\c\";"));
}

#[test]
fn showcase_cargo_includes_entry_crate_dependency() {
    let mut config = ShowcaseConfig::default();
    config.project.name = "Demo".to_owned();
    config.project.entry_crate = "/tmp/demo/examples/basic".to_owned();
    config.project.showcase_crate = "/tmp/demo/examples/basic/showcase".to_owned();

    let cargo_toml = render_showcase_app_cargo_toml(
        &config,
        "[package]\nname = \"basic-example\"\nversion = \"0.1.0\"\n",
        "/tmp/demo/examples/basic/Cargo.toml",
        "0.1.0",
    )
    .expect("render cargo");
    assert!(cargo_toml.contains("version = \"0.1.0\""));
    assert!(cargo_toml.contains("[workspace]"));
    assert!(cargo_toml.contains("showcase_entry = { package = \"basic-example\""));
    assert!(cargo_toml.contains("path = \"..\""));
    assert!(cargo_toml.contains("dioxus-showcase-ui = "));
    assert!(cargo_toml.contains("name = \"demo-showcase\""));
}

#[test]
fn showcase_cargo_pins_the_profiles_that_keep_registrations_linked() {
    let mut config = ShowcaseConfig::default();
    config.project.entry_crate = "/tmp/x/ui".to_owned();
    config.project.showcase_crate = "/tmp/x/showcase".to_owned();

    let cargo_toml = render_showcase_app_cargo_toml(
        &config,
        "[package]\nname = \"ui\"\nversion = \"0.1.0\"\n",
        "/tmp/x/ui/Cargo.toml",
        "0.1.0",
    )
    .expect("render cargo");
    assert!(cargo_toml.contains("[profile.dev]"));
    assert!(cargo_toml.contains("lto = \"thin\""));
    assert!(cargo_toml.contains("[profile.release]"));
    assert!(cargo_toml.contains("lto = true"));
    assert!(cargo_toml.contains("strip = true"));
    assert!(cargo_toml.contains("path = \"../ui\""));
}

#[test]
fn a_fresh_showcase_cargo_passes_the_lto_check() {
    let mut config = ShowcaseConfig::default();
    config.project.entry_crate = "/tmp/x/ui".to_owned();
    config.project.showcase_crate = "/tmp/x/showcase".to_owned();

    let cargo_toml = render_showcase_app_cargo_toml(
        &config,
        "[package]\nname = \"ui\"\nversion = \"0.1.0\"\n",
        "/tmp/x/ui/Cargo.toml",
        "0.1.0",
    )
    .expect("render cargo");
    assert!(profile_sets_lto(&cargo_toml, "dev"));
    assert!(profile_sets_lto(&cargo_toml, "release"));
    assert!(profiles_missing_lto(Some(&cargo_toml)).is_empty());
}

#[test]
fn showcase_cargo_reports_an_entry_manifest_without_a_package_name() {
    let config = ShowcaseConfig::default();
    assert_eq!(
        render_showcase_app_cargo_toml(&config, "[dependencies]\nname = \"x\"\n", "web/Cargo.toml", "1.0.0"),
        Err("missing [package].name in web/Cargo.toml".to_owned())
    );
    assert_eq!(
        render_showcase_app_cargo_toml(&config, "[package]\nname = x\n", "web/Cargo.toml", "1.0.0"),
        Err("expected quoted string, got x".to_owned())
    );
}

#[test]
fn showcase_dioxus_toml_carries_title_and_base_path() {
    let mut config = ShowcaseConfig::default();
    config.project.name = "Demo".to_owned();
    config.build.base_path = "/".to_owned();

    let root = render_showcase_app_dioxus_toml(&config).expect("render dioxus toml");
    assert!(root.contains("name = \"Demo showcase\""));
    assert!(root.contains("title = \"Demo Showcase\""));
    assert!(root.contains("base_path = \"\""));

    config.build.base_path = "/my-repo/".to_owned();
    let nested = render_showcase_app_dioxus_toml(&config).expect("render dioxus toml");
    assert!(nested.contains("base_path = \"my-repo\""));
}

const GOLDEN_MAIN_RS: &str = "// Generated once by dioxus-showcase. Safe to edit; never regenerated.
use dioxus::prelude::*;
use showcase_entry as _; // LOAD-BEARING: forces rlib linkage so registrations survive

fn main() {
    launch(App);
}

#[component]
fn App() -> Element {
    rsx! {
        dioxus_showcase_ui::ShowcaseApp { base_path: \"/\" }
    }
}
";

#[test]
fn showcase_main_matches_the_golden_entry_point() {
    let main_rs = render_showcase_app_main_rs("/", &[]).expect("render main");

    assert_eq!(main_rs, GOLDEN_MAIN_RS);
}

#[test]
fn showcase_main_keeps_the_linkage_line_and_its_warning() {
    let main_rs = render_showcase_app_main_rs("/", &[]).expect("render main");

    assert!(main_rs.contains("use showcase_entry as _;"));
    assert!(main_rs.contains("LOAD-BEARING"));
    assert!(main_rs.contains("dioxus_showcase_ui::ShowcaseApp { base_path: \"/\" }"));
    assert!(!main_rs.contains("mod generated"));
    assert!(!main_rs.contains("__dioxus_showcase_"));
}

#[test]
fn showcase_main_links_one_stylesheet_per_discovered_file() {
    let main_rs = render_showcase_app_main_rs(
        "/",
        &["/assets/app.css".to_owned(), "/assets/styles/tailwind.css".to_owned()],
    )
    .expect("render main");

    assert!(main_rs.contains("document::Stylesheet { href: asset!(\"/assets/app.css\") }"));
    assert!(main_rs
        .contains("document::Stylesheet { href: asset!(\"/assets/styles/tailwind.css\") }"));
    assert_eq!(main_rs.matches("document::Stylesheet").count(), 2);
}

#[test]
fn showcase_main_normalizes_the_base_path_prop() {
    let root = render_showcase_app_main_rs("/", &[]).expect("render root");
    assert!(root.contains("base_path: \"/\""));

    let nested = render_showcase_app_main_rs("/my-repo/", &[]).expect("render nested");
    assert!(nested.contains("base_path: \"/my-repo\""));

    let bare = render_showcase_app_main_rs("my-repo", &[]).expect("render bare");
    assert!(bare.contains("base_path: \"/my-repo\""));

    let blank = render_showcase_app_main_rs("   ", &[]).expect("render blank");
    assert!(blank.contains("base_path: \"/\""));
}

#[test]
fn rendered_templates_are_the_stated_texts() {
    let main_rs = render_showcase_app_main_rs("/repo/", &["/assets/a.css".to_owned(), "/assets/b\"c.css".to_owned()])
        .expect("render main");
    let expected = GOLDEN_MAIN_RS
        .replace(
            "    rsx! {\n",
            "    rsx! {\n        document::Stylesheet { href: asset!(\"/assets/a.css\") }\n        document::Stylesheet { href: asset!(\"/assets/b\\\"c.css\") }\n",
        )
        .replace("base_path: \"/\"", "base_path: \"/repo\"");
    assert_eq!(main_rs, expected);

    assert_eq!(
        render_generated_runtime_rs("gen-1").expect("render runtime"),
        "// Generated by dioxus-showcase build; rewritten on every build.\npub const SHOWCASE_GENERATION: &str = \"gen-1\";\n"
    );

    let mut config = ShowcaseConfig::default();
    config.project.name = "Demo".to_owned();
    config.build.base_path = "/my-repo/".to_owned();
    assert_eq!(
        render_showcase_app_dioxus_toml(&config).expect("render dioxus toml"),
        "[application]\nname = \"Demo showcase\"\ndefault_platform = \"web\"\n\n[web.app]\ntitle = \"Demo Showcase\"\nbase_path = \"my-repo\"\n"
    );

    config.project.entry_crate = "examples/basic".to_owned();
    config.project.showcase_crate = "showcase".to_owned();
    let cargo = render_showcase_app_cargo_toml(&config, "[package]\nname = \"basic-example\"\n", "examples/basic/Cargo.toml", "0.1.0")
        .expect("render cargo toml");
    assert_eq!(
        cargo,
        "[package]\nname = \"demo-showcase\"\nversion = \"0.1.0\"\nedition = \"2021\"\npublish = false\n\n[workspace]\n\n[dependencies]\ndioxus = { version = \"0.7\", features = [\"router\"] }\ndioxus-showcase-ui = \"0.1.0\"\nshowcase_entry = { package = \"basic-example\", path = \"../examples/basic\" }\n\n[features]\ndefault = [\"web\"]\nweb = [\"dioxus/web\"]\n\n[profile.dev]\nlto = \"thin\"\n\n[profile.release]\nlto = true\nstrip = true\n"
    );
}
