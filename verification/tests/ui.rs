use dioxus_showcase::base_path::BasePath;
use dioxus_showcase::filters::{all_tags, matches_tag, matching};
use dioxus_showcase::manifest::StoryDefinition;
use dioxus_showcase::navigation::StoryNavigationNode;
use dioxus_showcase::sidebar::{contains_active_story, navigation};
use dioxus_showcase::theme::ThemeMode;

fn definition(id: &str, title: &str, tags: &[&str]) -> StoryDefinition {
    StoryDefinition {
        id: id.to_owned(),
        title: title.to_owned(),
        source_path: "src/lib.rs".to_owned(),
        item_path: format!("krate::{}", id.replace('-', "_")),
        renderer_symbol: format!("__dioxus_showcase_render__{}", id.replace('-', "_")),
        tags: tags.iter().map(|tag| (*tag).to_owned()).collect(),
    }
}

fn tree(stories: &[StoryDefinition]) -> Vec<StoryNavigationNode> {
    let refs: Vec<&StoryDefinition> = stories.iter().collect();
    navigation(&refs)
}

#[test]
fn root_spellings_all_normalise_to_the_empty_base() {
    for raw in ["/", "", "   ", "//", " / "] {
        assert!(BasePath::new(raw).is_root(), "{raw:?} should be the root base path");
        assert_eq!(BasePath::new(raw).join("/"), "/");
    }
}

#[test]
fn a_sub_path_gains_a_leading_slash_and_loses_its_trailing_one() {
    assert_eq!(BasePath::new("/my-repo").join(""), "/my-repo");
    assert_eq!(BasePath::new("my-repo/").join(""), "/my-repo");
    assert_eq!(BasePath::new("/my-repo/").join(""), "/my-repo");
    assert_eq!(BasePath::new("  /my-repo/  ").join(""), "/my-repo");
}

#[test]
fn nested_sub_paths_keep_their_inner_separators() {
    assert_eq!(BasePath::new("/nested/path/").join("/component/x"), "/nested/path/component/x");
}

#[test]
fn join_produces_single_slash_boundaries_at_the_root() {
    let root = BasePath::new("/");
    assert_eq!(root.join("/component/x"), "/component/x");
    assert_eq!(root.join("component/x"), "/component/x");
}

#[test]
fn join_prefixes_every_in_app_path_under_a_sub_path() {
    let repo = BasePath::new("/repo");
    assert_eq!(repo.join("/component/x"), "/repo/component/x");
    assert_eq!(repo.join("component/x"), "/repo/component/x");
    assert!(!repo.is_root());
}

#[test]
fn join_collapses_any_number_of_leading_slashes() {
    assert_eq!(BasePath::new("repo").join("///x"), "/repo/x");
    assert_eq!(BasePath::default().join("//"), "/");
}

#[test]
fn toggling_twice_returns_to_the_starting_mode() {
    assert_eq!(ThemeMode::Light.toggle(), ThemeMode::Dark);
    assert_eq!(ThemeMode::Dark.toggle(), ThemeMode::Light);
    assert_eq!(ThemeMode::default().toggle().toggle(), ThemeMode::default());
}

#[test]
fn each_mode_has_a_distinct_dom_token_and_label() {
    assert_eq!(ThemeMode::Light.as_str(), "light");
    assert_eq!(ThemeMode::Dark.as_str(), "dark");
    assert_eq!(ThemeMode::Light.label(), "Light");
    assert_eq!(ThemeMode::Dark.label(), "Dark");
}

#[test]
fn all_tags_is_sorted_deduplicated_and_independent_of_story_order() {
    let forwards = [
        definition("z", "Z", &["forms", "atoms"]),
        definition("a", "A", &["atoms"]),
        definition("m", "M", &["layout"]),
    ];
    let backwards = [
        definition("m", "M", &["layout"]),
        definition("a", "A", &["atoms"]),
        definition("z", "Z", &["forms", "atoms"]),
    ];

    assert_eq!(all_tags(&forwards), vec!["atoms", "forms", "layout"]);
    assert_eq!(all_tags(&forwards), all_tags(&backwards));
}

#[test]
fn all_tags_is_empty_when_no_story_is_tagged() {
    assert!(all_tags(&[definition("a", "A", &[])]).is_empty());
    assert!(all_tags(&[]).is_empty());
}

#[test]
fn all_tags_orders_by_characters() {
    let stories = [definition("a", "A", &["b", "B", "ab", "a", "é", "b"])];
    assert_eq!(all_tags(&stories), vec!["B", "a", "ab", "b", "é"]);
}

#[test]
fn no_selected_tag_matches_every_story_including_untagged_ones() {
    assert!(matches_tag(&definition("a", "A", &[]), None));
    assert!(matches_tag(&definition("a", "A", &["atoms"]), None));
}

#[test]
fn a_selected_tag_keeps_only_stories_carrying_it() {
    let stories = [
        definition("a", "A", &["atoms"]),
        definition("b", "B", &["layout", "atoms"]),
        definition("c", "C", &["layout"]),
        definition("d", "D", &[]),
    ];

    let kept =
        matching(&stories, Some("atoms")).iter().map(|d| d.id.as_str()).collect::<Vec<_>>();

    assert_eq!(kept, vec!["a", "b"]);
}

#[test]
fn a_tag_nothing_carries_filters_everything_out() {
    let stories = [definition("a", "A", &["atoms"])];

    assert!(matching(&stories, Some("nope")).is_empty());
}

#[test]
fn navigation_folds_slash_delimited_titles_into_a_tree() {
    let stories = [
        definition("atoms-button", "Atoms/Button", &[]),
        definition("atoms-input", "Atoms/Input", &[]),
        definition("layout-grid", "Layout/Grid", &[]),
    ];

    let nodes = tree(&stories);

    assert_eq!(nodes.len(), 2);
    assert_eq!(nodes[0].segment, "Atoms");
    assert_eq!(nodes[0].children.len(), 2);
    assert_eq!(nodes[1].segment, "Layout");
    assert_eq!(nodes[0].children[0].story_id.as_deref(), Some("atoms-button"));
}

#[test]
fn navigation_of_no_stories_is_an_empty_tree() {
    assert!(tree(&[]).is_empty());
}

#[test]
fn a_branch_is_open_only_when_the_active_story_is_below_it() {
    let stories =
        [definition("atoms-button", "Atoms/Button", &[]), definition("layout", "Layout", &[])];
    let nodes = tree(&stories);

    assert!(contains_active_story(&nodes[0], Some("atoms-button")));
    assert!(!contains_active_story(&nodes[1], Some("atoms-button")));
}

#[test]
fn no_branch_is_open_when_no_story_is_active() {
    let nodes = tree(&[definition("atoms-button", "Atoms/Button", &[])]);

    assert!(!contains_active_story(&nodes[0], None));
}

#[test]
fn a_deep_story_opens_every_ancestor() {
    let nodes = tree(&[definition("deep", "A/B/C/D", &[])]);
    assert!(contains_active_story(&nodes[0], Some("deep")));
    assert!(contains_active_story(&nodes[0].children[0].children[0], Some("deep")));
    assert!(!contains_active_story(&nodes[0], Some("other")));
}
