use dioxus_showcase::controls::{ControlKind, InitialValue, StoryShape};
use dioxus_showcase::expansion::{provider_expansion, showcase_expansion, story_expansion, story_function};

const ZERO_ARG_COMPONENT: &str = "fn Button() -> Element { rsx! { button {} } }";

const ZERO_ARG_STORY: &str = "fn button_default() -> Element { rsx! { button {} } }";

const VALID_PROVIDER: &str = "fn Theme(children: Element) -> Element { rsx! { div { {children} } } }";

fn showcase_error(attr: &str, item: &str) -> String {
    showcase_expansion(attr, item).err().expect("expected a rejection")
}

fn story_error(attr: &str, item: &str) -> String {
    story_expansion(attr, item).err().expect("expected a rejection")
}

#[test]
fn showcase_unparseable_attribute_arguments_are_rejected() {
    assert!(showcase_error("title =", ZERO_ARG_COMPONENT).contains("invalid #[showcase(...)] arguments"));
}

#[test]
fn showcase_non_literal_title_is_rejected() {
    assert_eq!(showcase_error("title = 12", ZERO_ARG_COMPONENT), "showcase title must be a string literal");
}

#[test]
fn showcase_non_array_tags_are_rejected() {
    assert_eq!(
        showcase_error("tags = \"atoms\"", ZERO_ARG_COMPONENT),
        "showcase tags must be an array of string literals"
    );
}

#[test]
fn showcase_non_function_items_are_rejected_with_a_display_formatted_error() {
    assert_eq!(showcase_error("", "struct NotAFunction;"), "expected `fn`");
}

#[test]
fn showcase_receiver_arguments_are_rejected() {
    assert_eq!(
        showcase_error("", "fn Button(&self, label: String) -> Element { rsx! {} }"),
        "showcase functions must not take a receiver argument"
    );
}

#[test]
fn showcase_destructuring_parameters_are_rejected() {
    assert!(showcase_error("", "fn Button((a, b): (u8, u8)) -> Element { rsx! {} }")
        .contains("showcase function parameters must use simple identifier names"));
}

#[test]
fn a_zero_arg_component_registers_itself_at_its_call_site() {
    let e = showcase_expansion("title = \"Atoms/Button\"", ZERO_ARG_COMPONENT).expect("valid component");
    assert_eq!(e.name, "Button");
    assert_eq!(e.title, "Atoms/Button");
    assert_eq!(e.id, "atoms-button");
    assert_eq!(e.story_symbol, "__dioxus_showcase_story__Button");
    assert_eq!(e.renderer_symbol, "__dioxus_showcase_render__Button");
    assert_eq!(e.factory_symbol, "__dioxus_showcase_factory__Button");
    assert_eq!(e.controls_symbol, "__dioxus_showcase_controls__Button");
    assert_eq!(e.shape, StoryShape::NoArguments);
    assert!(e.plans.is_empty());
    assert!(e.tags.is_empty());
}

#[test]
fn a_props_component_registers_itself_too() {
    let e = showcase_expansion("", "fn Button(props: ButtonProps) -> Element { rsx! {} }").expect("valid component");
    assert_eq!(e.shape, StoryShape::SingleProps);
    assert_eq!(e.title, "Button");
    assert_eq!(e.id, "button");
    assert!(e.plans.is_empty());
}

#[test]
fn a_multi_arg_component_registers_itself_too() {
    let e = showcase_expansion("", "fn Button(label: String, disabled: bool) -> Element { rsx! {} }")
        .expect("valid component");
    assert_eq!(e.shape, StoryShape::Parameters);
    assert_eq!(e.plans.len(), 2);
    assert_eq!(e.plans[0].name, "label");
    assert_eq!(e.plans[0].control, Some(ControlKind::Text));
    assert_eq!(e.plans[1].name, "disabled");
    assert_eq!(e.plans[1].control, Some(ControlKind::Checkbox));
}

#[test]
fn story_unparseable_attribute_arguments_are_rejected() {
    assert!(story_error("title =", ZERO_ARG_STORY).contains("invalid #[showcase(...)] arguments"));
}

#[test]
fn story_non_function_items_are_rejected_with_a_display_formatted_error() {
    assert_eq!(story_error("", "struct NotAFunction;"), "expected `fn`");
}

#[test]
fn story_receiver_arguments_are_rejected() {
    assert_eq!(
        story_error("", "fn button_default(&self, label: String) -> Element { rsx! {} }"),
        "showcase functions must not take a receiver argument"
    );
}

#[test]
fn story_destructuring_parameters_are_rejected() {
    assert!(story_error("", "fn button_default((a, b): (u8, u8)) -> Element { rsx! {} }")
        .contains("showcase function parameters must use simple identifier names"));
}

#[test]
fn a_zero_arg_story_registers_itself_at_its_call_site() {
    let e = story_expansion("title = \"Atoms/Button/Default\"", ZERO_ARG_STORY).expect("valid story");
    assert_eq!(e.name, "button_default");
    assert_eq!(e.story_symbol, "__dioxus_showcase_story__button_default");
    assert_eq!(e.id, "atoms-button-default");
    assert!(e.plans.is_empty());
}

#[test]
fn a_controlled_story_registers_itself_too() {
    let e = story_expansion(
        "title = \"Atoms/Button/Controlled\"",
        "fn button_controlled(label: String) -> Element { rsx! {} }",
    )
    .expect("valid story");
    assert_eq!(e.id, "atoms-button-controlled");
    assert_eq!(e.plans.len(), 1);
    assert_eq!(e.plans[0].initial, InitialValue::StoryArg);
}

#[test]
fn a_story_without_a_title_takes_its_function_name() {
    let e = story_expansion("tags = [\"atoms\", \"forms\"]", ZERO_ARG_STORY).expect("valid story");
    assert_eq!(e.title, "button_default");
    assert_eq!(e.id, "button-default");
    assert_eq!(e.tags, vec!["atoms".to_owned(), "forms".to_owned()]);
}

#[test]
fn a_single_props_story_still_plans_its_parameter() {
    let e = story_expansion("", "fn s(props: ButtonProps) -> Element { rsx! {} }").expect("valid story");
    assert_eq!(e.shape, StoryShape::SingleProps);
    assert_eq!(e.plans.len(), 1);
    assert_eq!(e.plans[0].name, "props");
    assert_eq!(e.plans[0].control, None);
}

#[test]
fn story_with_malformed_default_is_rejected() {
    assert_eq!(
        story_error("title = \"Bad/Default\"", "fn bad_default(#[default] size: f64) -> Element { rsx! { \"{size}\" } }"),
        "showcase parameter defaults are written #[default = <expression>]"
    );
}

#[test]
fn story_with_two_defaults_is_rejected() {
    assert_eq!(
        story_error(
            "title = \"Bad/TwoDefaults\"",
            "fn two_defaults(#[default = 1.0] #[default = 2.0] size: f64) -> Element { rsx! { \"{size}\" } }"
        ),
        "a showcase parameter takes at most one #[default]"
    );
}

#[test]
fn defaults_are_read_only_from_a_plain_default_attribute() {
    let e = story_expansion(
        "",
        "fn s(#[default = 3] size: u8, #[::default = 4] count: u8, #[default = \"hi\"] label: String) -> Element { rsx! {} }",
    )
    .expect("valid story");
    assert_eq!(e.plans.len(), 3);
    assert_eq!(e.plans[0].initial, InitialValue::Expression);
    assert_eq!(e.plans[0].control, Some(ControlKind::Number));
    assert_eq!(e.plans[1].initial, InitialValue::StoryArg);
    assert_eq!(e.plans[2].initial, InitialValue::StringFrom);
}

#[test]
fn the_removed_index_spelling_is_rejected() {
    let err = provider_expansion("index = 2", VALID_PROVIDER).err().expect("expected a rejection");
    assert!(err.contains("`index` was renamed to `order`"), "got {err}");
}

#[test]
fn provider_with_bad_order_is_rejected() {
    assert_eq!(
        provider_expansion("order = \"first\"", VALID_PROVIDER).err(),
        Some("showcase order must be an integer literal".to_owned())
    );
}

#[test]
fn provider_non_function_items_are_rejected_with_a_display_formatted_error() {
    assert_eq!(provider_expansion("", "struct NotAFunction;").err(), Some("expected `fn`".to_owned()));
}

#[test]
fn a_valid_provider_registers_itself_with_the_default_order() {
    let e = provider_expansion("", VALID_PROVIDER).expect("valid provider");
    assert_eq!(e.name, "Theme");
    assert_eq!(e.order, 0);
    assert_eq!(e.wrap_symbol, "__dioxus_showcase_wrap__Theme");
    assert!(e.props.is_empty());
}

#[test]
fn an_explicit_negative_order_reaches_the_registration() {
    let e = provider_expansion("order = -10", VALID_PROVIDER).expect("valid provider");
    assert_eq!(e.order, -10);
}

#[test]
fn a_provider_fills_its_other_props_from_story_args() {
    let e = provider_expansion("order = 3", "fn Theme(dense: bool, children: Element, accent: String) -> Element { children }")
        .expect("valid provider");
    assert_eq!(e.order, 3);
    assert_eq!(e.props, vec!["dense".to_owned(), "accent".to_owned()]);
}

#[test]
fn a_function_is_read_by_its_name_and_parameters() {
    let (name, params) =
        story_function("fn card(#[default = 2] width: u8, (a, b): (u8, u8), label: ui::Text) -> Element { todo!() }")
            .expect("a function");
    assert_eq!(name, "card");
    assert_eq!(params.len(), 3);
    assert_eq!(params[0].ident.as_deref(), Some("width"));
    assert_eq!(params[0].ty_ident.as_deref(), Some("u8"));
    assert_eq!(params[0].defaults.len(), 1);
    assert_eq!(params[1].ident, None);
    assert_eq!(params[2].ty_ident.as_deref(), Some("Text"));
    assert!(!params[2].is_receiver);
    assert_eq!(story_function("const X: u8 = 1;").err(), Some("expected `fn`".to_owned()));
}
