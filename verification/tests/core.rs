use dioxus_showcase::text::char_is_whitespace;
use dioxus_showcase::manifest::{StoryDefinition, StoryManifest, MANIFEST_SCHEMA_VERSION};
use dioxus_showcase::navigation::build_story_navigation;
use dioxus_showcase::runtime::{ShowcaseRegistry, StoryEntry};

fn story_definition(
    id: &str,
    title: &str,
    source_path: &str,
    item_path: &str,
    renderer_symbol: &str,
    tags: &[&str],
) -> StoryDefinition {
    StoryDefinition {
        id: id.to_owned(),
        title: title.to_owned(),
        source_path: source_path.to_owned(),
        item_path: item_path.to_owned(),
        renderer_symbol: renderer_symbol.to_owned(),
        tags: tags.iter().map(|t| (*t).to_owned()).collect(),
    }
}

fn assert_json_matches(json: &str, manifest: &StoryManifest) {
    let decoded: serde_json::Value = serde_json::from_str(json).expect("valid json");
    assert_eq!(decoded["schema_version"].as_u64(), Some(manifest.schema_version as u64));
    let stories = decoded["stories"].as_array().expect("stories array");
    assert_eq!(stories.len(), manifest.stories.len());
    for (value, story) in stories.iter().zip(&manifest.stories) {
        assert_eq!(value["id"].as_str(), Some(story.id.as_str()));
        assert_eq!(value["title"].as_str(), Some(story.title.as_str()));
        assert_eq!(value["source_path"].as_str(), Some(story.source_path.as_str()));
        assert_eq!(value["module_path"].as_str(), Some(story.item_path.as_str()));
        assert_eq!(value["renderer_symbol"].as_str(), Some(story.renderer_symbol.as_str()));
        let tags: Vec<&str> =
            value["tags"].as_array().expect("tags").iter().map(|t| t.as_str().unwrap()).collect();
        assert_eq!(tags, story.tags.iter().map(String::as_str).collect::<Vec<_>>());
    }
}

#[test]
fn to_json_serializes_manifest_with_escaped_content() {
    let mut manifest = StoryManifest::new(1);
    manifest.add_story(story_definition(
        "atoms-button",
        "Atoms \"Button\"",
        "showcase\\button.stories.rs",
        "showcase\\button\nstories.rs::button_default",
        "button_default",
        &["atoms", "primary\"cta"],
    ));

    let json = manifest.to_json();
    assert_json_matches(&json, &manifest);
}

#[test]
fn new_manifest_starts_empty() {
    let manifest = StoryManifest::new(3);
    assert_eq!(manifest.schema_version, 3);
    assert!(manifest.stories.is_empty());
}

#[test]
fn manifest_round_trips_through_json() {
    let mut manifest = StoryManifest::new(2);
    manifest.add_story(story_definition(
        "atoms-button",
        "Atoms/Button",
        "src/button.rs",
        "button::Button",
        "__dioxus_showcase_render__Button",
        &["atoms"],
    ));

    let json = manifest.to_json();
    assert_json_matches(&json, &manifest);
}

#[test]
fn manifest_json_is_compact_with_fields_in_declaration_order() {
    let mut manifest = StoryManifest::new(MANIFEST_SCHEMA_VERSION);
    manifest.add_story(story_definition("a", "A", "s.rs", "k::a", "r", &["x", "y"]));
    manifest.add_story(story_definition("b", "B\t", "t.rs", "k::b", "q", &[]));
    assert_eq!(
        manifest.to_json(),
        "{\"schema_version\":2,\"stories\":[{\"id\":\"a\",\"title\":\"A\",\"source_path\":\"s.rs\",\"module_path\":\"k::a\",\"renderer_symbol\":\"r\",\"tags\":[\"x\",\"y\"]},{\"id\":\"b\",\"title\":\"B\\t\",\"source_path\":\"t.rs\",\"module_path\":\"k::b\",\"renderer_symbol\":\"q\",\"tags\":[]}]}"
    );
    assert_eq!(StoryManifest::new(10).to_json(), "{\"schema_version\":10,\"stories\":[]}");
}

#[test]
fn manifest_json_escapes_control_characters_in_lowercase_hex() {
    let mut manifest = StoryManifest::new(0);
    manifest.add_story(story_definition("\u{1}\u{1f}", "é", "", "", "", &["\u{7f}"]));
    assert_eq!(
        manifest.to_json(),
        "{\"schema_version\":0,\"stories\":[{\"id\":\"\\u0001\\u001f\",\"title\":\"é\",\"source_path\":\"\",\"module_path\":\"\",\"renderer_symbol\":\"\",\"tags\":[\"\u{7f}\"]}]}"
    );
}

fn entry(id: &str, title: &str, source_path: &str, item_path: &str, symbol: &'static str) -> StoryEntry {
    StoryEntry {
        definition: story_definition(id, title, source_path, item_path, symbol, &[]),
        renderer_symbol: symbol,
    }
}

#[test]
fn register_updates_count_and_manifest() {
    let mut registry = ShowcaseRegistry::default();
    registry.register(StoryEntry {
        definition: story_definition(
            "atoms-button-default",
            "Atoms/Button/Default",
            "showcase/button.stories.rs",
            "showcase::button_default",
            "button_default",
            &["atoms"],
        ),
        renderer_symbol: "button_default",
    });

    assert_eq!(registry.story_count(), 1);
    let manifest = registry.manifest();
    assert_eq!(manifest.schema_version, 1);
    assert_eq!(manifest.stories.len(), 1);
    assert_eq!(manifest.stories[0].id, "atoms-button-default");
}

#[test]
fn build_story_navigation_groups_titles_into_tree() {
    let stories = vec![
        entry(
            "atoms-dropdown-link",
            "Atoms/Dropdown Link",
            "showcase/button.stories.rs",
            "showcase::dropdown_link",
            "dropdown_link",
        ),
        entry("atoms-button", "Atoms/Button", "showcase/button.stories.rs", "showcase::button", "button"),
    ];

    let navigation = build_story_navigation(&stories);
    assert_eq!(navigation.len(), 1);
    assert_eq!(navigation[0].segment, "Atoms");
    assert_eq!(navigation[0].title_path, "Atoms");
    assert_eq!(navigation[0].children.len(), 2);
    assert_eq!(navigation[0].children[0].segment, "Dropdown Link");
    assert_eq!(navigation[0].children[0].story_id.as_deref(), Some("atoms-dropdown-link"));
    assert_eq!(navigation[0].children[1].segment, "Button");
    assert_eq!(navigation[0].children[1].story_id.as_deref(), Some("atoms-button"));
}

#[test]
fn build_story_navigation_allows_branch_to_be_story_and_parent() {
    let stories = vec![
        entry("atoms", "Atoms", "showcase/atoms.rs", "showcase::atoms", "atoms"),
        entry("atoms-button", "Atoms/Button", "showcase/button.rs", "showcase::button", "button"),
    ];

    let navigation = build_story_navigation(&stories);
    assert_eq!(navigation.len(), 1);
    assert_eq!(navigation[0].story_id.as_deref(), Some("atoms"));
    assert_eq!(navigation[0].children.len(), 1);
    assert_eq!(navigation[0].children[0].segment, "Button");
}

#[test]
fn build_story_navigation_accepts_slices_of_references() {
    let stories =
        [entry("atoms-button", "Atoms/Button", "showcase/button.rs", "showcase::button", "button")];
    let filtered = stories.iter().collect::<Vec<_>>();

    let navigation = build_story_navigation(&filtered);

    assert_eq!(navigation.len(), 1);
    assert_eq!(navigation[0].segment, "Atoms");
    assert_eq!(navigation[0].children.len(), 1);
    assert_eq!(navigation[0].children[0].story_id.as_deref(), Some("atoms-button"));
}

#[test]
fn navigation_trims_segments_and_skips_empty_titles() {
    let stories = vec![
        entry("a", "  Atoms /  Button ", "", "", "a"),
        entry("blank", " / // ", "", "", "b"),
        entry("b", "Atoms//Card/", "", "", "c"),
    ];
    let navigation = build_story_navigation(&stories);
    assert_eq!(navigation.len(), 1);
    assert_eq!(navigation[0].children.len(), 2);
    assert_eq!(navigation[0].children[0].title_path, "Atoms/Button");
    assert_eq!(navigation[0].children[1].title_path, "Atoms/Card");
    assert_eq!(navigation[0].children[1].story_id.as_deref(), Some("b"));
}

#[test]
fn the_last_story_with_a_title_owns_its_node() {
    // Reading back a path gives the id of the last story written there.
    let stories = vec![entry("first", "A/B", "", "", "x"), entry("second", "A / B", "", "", "y")];
    let navigation = build_story_navigation(&stories);
    assert_eq!(navigation[0].children.len(), 1);
    assert_eq!(navigation[0].children[0].story_id.as_deref(), Some("second"));
    assert_eq!(navigation[0].story_id, None);
}

#[test]
fn whitespace_agrees_with_std_on_every_char() {
    for code in 0u32..=0x10FFFF {
        if let Some(c) = char::from_u32(code) {
            assert_eq!(char_is_whitespace(c), c.is_whitespace(), "U+{code:04X}");
        }
    }
}
