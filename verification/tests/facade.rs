use dioxus_showcase::facade::{StoryArg, StoryArgs, StoryProps, StoryVariant};
use dioxus_showcase::prelude;

#[derive(Default)]
struct DemoArgs;

impl StoryArg for DemoArgs {
    fn story_arg() -> Self {
        Self::default()
    }
}

#[test]
fn story_arg_trait_is_implementable() {
    fn assert_story_arg<T: StoryArg>() {}
    assert_story_arg::<DemoArgs>();
}

#[test]
fn story_args_trait_is_derived_from_story_arg() {
    fn assert_story_args<T: StoryArgs>() {}
    assert_story_args::<DemoArgs>();
    assert_eq!(<DemoArgs as StoryArgs>::stories().len(), 1);
}

#[derive(Default)]
struct DemoProps;

impl StoryProps for DemoProps {
    fn stories() -> Vec<StoryVariant<Self>> {
        vec![StoryVariant::unnamed(Self::default())]
    }
}

#[test]
fn story_props_trait_supports_named_variants() {
    let stories = DemoProps::stories();
    assert_eq!(stories.len(), 1);
    assert_eq!(stories[0].name, None);
}

#[test]
fn named_variants_carry_their_name() {
    let variant = StoryVariant::named("Primary", 7u8);
    assert_eq!(variant.name.as_deref(), Some("Primary"));
    assert_eq!(variant.value, 7);
}

#[test]
fn built_in_story_args_are_the_documented_placeholders() {
    assert_eq!(<String as StoryArg>::story_arg(), "Lorem Ipsum");
    assert_eq!(<&'static str as StoryArg>::story_arg(), "Lorem Ipsum");
    assert!(!<bool as StoryArg>::story_arg());
    assert_eq!(<i64 as StoryArg>::story_arg(), 0);
    assert_eq!(<Option<u8> as StoryArg>::story_arg(), None);
    assert!(<Vec<u8> as StoryArg>::story_arg().is_empty());
}

#[test]
fn prelude_reexports_core_types() {
    let definition = prelude::StoryDefinition {
        id: "id".to_owned(),
        title: "title".to_owned(),
        source_path: "showcase/button.stories.rs".to_owned(),
        item_path: "module::story".to_owned(),
        renderer_symbol: "story_renderer".to_owned(),
        tags: vec!["tag".to_owned()],
    };

    let entry = prelude::StoryEntry { definition, renderer_symbol: "story_renderer" };

    let mut registry = prelude::ShowcaseRegistry::default();
    registry.register(entry);
    assert_eq!(registry.story_count(), 1);
}
