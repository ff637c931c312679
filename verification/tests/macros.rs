use dioxus_showcase::controls::{
    story_shape, StoryShape, provider_props, story_arg_bindings, ControlKind, DefaultAttr, InitialValue, StoryParam,
};
use dioxus_showcase::meta::{
    derive_story_title, generated_story_definition, parse_showcase_meta, provider_order,
    showcase_title, variant_title, MetaExpr, MetaItem, ShowcaseMeta,
};

use dioxus_showcase::expansion::{
    parse_showcase_meta_text, provider_expansion, story_expansion, story_function,
};

const ZERO_ARG_STORY: &str = "fn button_default() -> Element { rsx! { button {} } }";

const VALID_PROVIDER: &str = "fn Theme(children: Element) -> Element { rsx! { div { {children} } } }";

fn meta_error(attr: &str) -> String {
    parse_showcase_meta_text(attr).err().expect("expected the attribute to be rejected")
}

#[test]
fn utils_unparseable_attribute_arguments_are_rejected() {
    assert!(meta_error("title =").starts_with("invalid #[showcase(...)] arguments:"));
}

#[test]
fn utils_non_literal_title_is_rejected() {
    assert_eq!(meta_error("title = some_ident"), "showcase title must be a string literal");
    assert_eq!(meta_error("title = 12"), "showcase title must be a string literal");
}

#[test]
fn non_literal_name_is_rejected() {
    assert_eq!(meta_error("name = 12"), "showcase name must be a string literal");
}

#[test]
fn non_path_component_is_rejected() {
    assert_eq!(meta_error("component = \"Button\""), "showcase component must be a component path");
}

#[test]
fn utils_non_array_tags_are_rejected() {
    assert_eq!(meta_error("tags = \"atoms\""), "showcase tags must be an array of string literals");
}

#[test]
fn non_string_tag_elements_are_rejected() {
    assert_eq!(meta_error("tags = [1, 2]"), "showcase tags must contain string literals only");
}

#[test]
fn the_removed_index_spelling_is_rejected_and_names_its_replacement() {
    let message = meta_error("index = 2");

    assert!(message.contains("`index` was renamed to `order`"), "got {message}");
    assert!(message.contains("#[provider(order = <integer>)]"), "got {message}");
    assert!(message.contains("lowest order wraps outermost"), "got {message}");
}

#[test]
fn index_is_rejected_even_when_order_is_also_present() {
    assert!(meta_error("order = 5, index = 2").contains("`index` was renamed"));
}

#[test]
fn non_integer_order_is_rejected() {
    assert_eq!(meta_error("order = \"first\""), "showcase order must be an integer literal");
}

#[test]
fn out_of_range_order_is_rejected() {
    assert_eq!(meta_error("order = 99999999999"), "showcase order must fit in i32");
}

#[test]
fn order_accepts_negative_literals() {
    let meta = parse_showcase_meta_text("order = -10").expect("negative order is valid");
    assert_eq!(meta.order, Some(-10));
}

#[test]
fn order_accepts_the_extreme_values_of_i32() {
    let low = parse_showcase_meta_text("order = -2147483648").expect("i32::MIN is valid");
    assert_eq!(low.order, Some(i32::MIN));
    let high = parse_showcase_meta_text("order = 2147483647").expect("i32::MAX is valid");
    assert_eq!(high.order, Some(i32::MAX));
    assert_eq!(meta_error("order = 2147483648"), "showcase order must fit in i32");
}

#[test]
fn order_accepts_positive_literals_and_defaults_to_absent() {
    assert_eq!(parse_showcase_meta_text("order = 7").unwrap().order, Some(7));
    assert_eq!(parse_showcase_meta_text("").unwrap().order, None);
}

#[test]
fn title_and_tags_parse_together() {
    let meta = parse_showcase_meta_text("title = \"Atoms/Button\", tags = [\"a\", \"b\"]")
        .expect("valid attribute");
    assert_eq!(meta.title.as_deref(), Some("Atoms/Button"));
    assert_eq!(meta.tags, vec!["a".to_owned(), "b".to_owned()]);
}

#[test]
fn unknown_keys_and_bare_arguments_are_skipped() {
    let meta = parse_showcase_meta_text(
        "inline, derive(Debug), unknown = 1, a::b = \"x\", component = ui::Button",
    )
    .expect("valid attribute");
    assert_eq!(meta.component.as_deref(), Some("Button"));
    assert_eq!(meta.title, None);
}

#[test]
fn already_parsed_arguments_follow_the_same_rules() {
    let items = vec![
        MetaItem::NameValue { key: Some("title".to_owned()), value: MetaExpr::Str("Atoms/Button".to_owned()) },
        MetaItem::NameValue { key: Some("order".to_owned()), value: MetaExpr::Neg(Box::new(MetaExpr::Int("3".to_owned()))) },
    ];
    let meta = parse_showcase_meta(Ok(items)).expect("valid attribute");
    assert_eq!(meta.title.as_deref(), Some("Atoms/Button"));
    assert_eq!(meta.order, Some(-3));
    let message = parse_showcase_meta(Err("unexpected end of input".to_owned())).err().expect("rejected");
    assert_eq!(message, "invalid #[showcase(...)] arguments: unexpected end of input");
}

fn story_meta(component: Option<&str>, name: Option<&str>, title: Option<&str>) -> ShowcaseMeta {
    ShowcaseMeta {
        title: title.map(str::to_owned),
        component: component.map(str::to_owned),
        name: name.map(str::to_owned),
        tags: vec![],
        order: None,
    }
}

#[test]
fn the_removed_component_argument_is_rejected_with_a_replacement() {
    let err = story_expansion("component = Button", ZERO_ARG_STORY).err().expect("expected a rejection");
    assert!(err.contains("no longer accepts component = ...; use title"), "got {err}");
    let err = derive_story_title(&story_meta(Some("Button"), None, None), "story").unwrap_err();
    assert!(err.contains("no longer accepts component = ...; use title"));
}

#[test]
fn the_removed_name_argument_is_rejected_with_a_replacement() {
    let err = story_expansion("name = \"Default\"", ZERO_ARG_STORY).err().expect("expected a rejection");
    assert!(err.contains("no longer accepts name = ...; include the full story path in title"), "got {err}");
    let err = derive_story_title(&story_meta(None, Some("Default"), None), "story").unwrap_err();
    assert!(err.contains("no longer accepts name = ...; include the full story path in title"));
}

#[test]
fn a_story_title_falls_back_to_the_function_name() {
    assert_eq!(derive_story_title(&story_meta(None, None, None), "button_default").unwrap(), "button_default");
    assert_eq!(
        derive_story_title(&story_meta(None, None, Some("Atoms/Button")), "button_default").unwrap(),
        "Atoms/Button"
    );
}

#[test]
fn variant_titles_append_non_empty_names() {
    assert_eq!(variant_title("Button", Some("Primary")), "Button/Primary");
    assert_eq!(variant_title("Button", Some("")), "Button");
    assert_eq!(variant_title("Button", None), "Button");
}

#[test]
fn story_only_attributes_are_rejected() {
    for attr in ["title = \"Atoms/Theme\"", "component = Theme", "name = \"theme\"", "tags = [\"atoms\"]"] {
        assert_eq!(
            provider_expansion(attr, VALID_PROVIDER).err(),
            Some("provider attributes only support order = <integer>".to_owned()),
            "for {attr}"
        );
    }
    let mut meta = story_meta(None, None, Some("Atoms/Theme"));
    meta.tags = vec!["atoms".to_owned()];
    assert_eq!(provider_order(&meta), Err("provider attributes only support order = <integer>".to_owned()));
}

#[test]
fn a_provider_defaults_to_order_zero() {
    assert_eq!(provider_order(&story_meta(None, None, None)), Ok(0));
    let mut meta = story_meta(None, None, None);
    meta.order = Some(-10);
    assert_eq!(provider_order(&meta), Ok(-10));
}

fn param(name: Option<&str>, ty: Option<&str>, defaults: Vec<DefaultAttr>) -> StoryParam {
    StoryParam {
        is_receiver: false,
        ident: name.map(str::to_owned),
        ty_ident: ty.map(str::to_owned),
        defaults,
    }
}

fn receiver() -> StoryParam {
    StoryParam { is_receiver: true, ident: None, ty_ident: None, defaults: vec![] }
}

/// The error `story_arg_bindings` gives for the parameters of a function's text.
fn binding_error(sig: &str) -> String {
    let (_, params) = story_function(sig).expect("test signature should parse");
    story_arg_bindings(&params).err().expect("expected a rejection")
}

#[test]
fn utils_receiver_arguments_are_rejected() {
    assert_eq!(
        binding_error("fn demo(&self, label: String) {}"),
        "showcase functions must not take a receiver argument"
    );
}

#[test]
fn destructuring_parameter_patterns_are_rejected() {
    assert!(binding_error("fn demo((a, b): (u8, u8)) {}")
        .starts_with("showcase function parameters must use simple identifier names"));
}

#[test]
fn parameters_get_controls_by_type_and_defaults_by_attribute() {
    let plans = story_arg_bindings(&vec![
        param(Some("label"), Some("String"), vec![DefaultAttr::NameValue]),
        param(Some("disabled"), Some("bool"), vec![]),
        param(Some("size"), Some("f32"), vec![DefaultAttr::NameValue]),
        param(Some("onclick"), Some("EventHandler"), vec![]),
    ])
    .expect("valid parameters");
    assert_eq!(plans.len(), 4);
    assert_eq!(plans[0].control, Some(ControlKind::Text));
    assert_eq!(plans[0].initial, InitialValue::StringFrom);
    assert_eq!(plans[1].control, Some(ControlKind::Checkbox));
    assert_eq!(plans[1].initial, InitialValue::StoryArg);
    assert_eq!(plans[2].control, Some(ControlKind::Number));
    assert_eq!(plans[2].initial, InitialValue::Expression);
    assert_eq!(plans[3].control, None);
    assert_eq!(plans[3].name, "onclick");
}

#[test]
fn malformed_or_repeated_defaults_are_rejected() {
    assert_eq!(
        story_arg_bindings(&vec![param(Some("x"), Some("u8"), vec![DefaultAttr::Malformed])]).err(),
        Some("showcase parameter defaults are written #[default = <expression>]".to_owned())
    );
    assert_eq!(
        story_arg_bindings(&vec![param(
            Some("x"),
            Some("u8"),
            vec![DefaultAttr::NameValue, DefaultAttr::NameValue]
        )])
        .err(),
        Some("a showcase parameter takes at most one #[default]".to_owned())
    );
}

#[test]
fn missing_children_parameter_is_rejected() {
    assert_eq!(
        provider_expansion("", "fn Theme() -> Element { rsx! { div {} } }").err(),
        Some("provider components must declare a `children` parameter explicitly".to_owned())
    );
    assert_eq!(
        provider_props(&vec![param(Some("theme"), Some("String"), vec![])]),
        Err("provider components must declare a `children` parameter explicitly".to_owned())
    );
}

#[test]
fn duplicate_children_parameters_are_rejected() {
    assert_eq!(
        provider_expansion("", "fn Theme(children: Element, children: Element) -> Element { rsx! {} }").err(),
        Some("provider components may only declare one `children` parameter".to_owned())
    );
}

#[test]
fn provider_receiver_arguments_are_rejected() {
    assert_eq!(
        provider_expansion("", "fn Theme(&self, children: Element) -> Element { rsx! {} }").err(),
        Some("provider functions must not take a receiver argument".to_owned())
    );
}

#[test]
fn provider_destructuring_parameters_are_rejected() {
    assert_eq!(
        provider_expansion("", "fn Theme((a, b): (u8, u8), children: Element) -> Element { rsx! {} }").err(),
        Some("provider function parameters must use simple identifier names".to_owned())
    );
}

#[test]
fn a_provider_fills_every_prop_but_children() {
    assert_eq!(
        provider_props(&vec![
            param(Some("theme"), Some("String"), vec![]),
            param(Some("children"), Some("Element"), vec![]),
            param(Some("dense"), Some("bool"), vec![]),
        ]),
        Ok(vec!["theme".to_owned(), "dense".to_owned()])
    );
}

#[test]
fn a_generated_story_takes_its_id_from_the_variant_title() {
    let title = variant_title("Atoms/Pill Button", Some("Disabled"));
    let definition = generated_story_definition(
        &title,
        "src/button_variants.rs",
        "example::button_variants::PillButton",
        "__dioxus_showcase_render__PillButton",
        &vec!["atoms".to_owned()],
    );
    assert_eq!(definition.id, "atoms-pill-button-disabled");
    assert_eq!(definition.title, "Atoms/Pill Button/Disabled");
    assert_eq!(definition.source_path, "src/button_variants.rs");
    assert_eq!(definition.item_path, "example::button_variants::PillButton");
    assert_eq!(definition.renderer_symbol, "__dioxus_showcase_render__PillButton");
    assert_eq!(definition.tags, vec!["atoms".to_owned()]);
}

const EXAMPLE_TAGS: &str = "tags = [\"examples\", \"workspace\"]";

#[test]
fn showcase_component_definition_generates_default_story() {
    let meta = parse_showcase_meta_text(EXAMPLE_TAGS).expect("valid showcase arguments");
    let title = showcase_title(&meta, "PillButtonControllable");
    let generated = vec![generated_story_definition(
        &title,
        "src/button_variants.rs",
        "button_variants::PillButtonControllable",
        "__dioxus_showcase_render__PillButtonControllable",
        &meta.tags,
    )];

    assert_eq!(generated.len(), 1);
    assert_eq!(generated[0].title, "PillButtonControllable");
    assert_eq!(generated[0].id, "pillbuttoncontrollable");
    assert_eq!(generated[0].tags, vec!["examples".to_owned(), "workspace".to_owned()]);
}

#[test]
fn story_function_definition_generates_primary_story() {
    let meta = parse_showcase_meta_text(&format!("title = \"PillButtonControllable/Primary\", {EXAMPLE_TAGS}"))
        .expect("valid story arguments");
    let title = derive_story_title(&meta, "pill_button_primary").expect("story title");
    let generated = vec![generated_story_definition(
        &title,
        "src/button_variants.rs",
        "button_variants::pill_button_primary",
        "__dioxus_showcase_render__pill_button_primary",
        &meta.tags,
    )];

    assert_eq!(generated.len(), 1);
    assert_eq!(generated[0].title, "PillButtonControllable/Primary");
    assert_eq!(generated[0].id, "pillbuttoncontrollable-primary");
    assert_eq!(generated[0].tags, vec!["examples".to_owned(), "workspace".to_owned()]);
}

#[test]
fn story_function_definition_generates_disabled_story() {
    let meta = parse_showcase_meta_text(&format!("title = \"PillButtonControllable/Disabled\", {EXAMPLE_TAGS}"))
        .expect("valid story arguments");
    let title = derive_story_title(&meta, "pill_button_disabled").expect("story title");
    let generated = vec![generated_story_definition(
        &title,
        "src/button_variants.rs",
        "button_variants::pill_button_disabled",
        "__dioxus_showcase_render__pill_button_disabled",
        &meta.tags,
    )];

    assert_eq!(generated.len(), 1);
    assert_eq!(generated[0].title, "PillButtonControllable/Disabled");
    assert_eq!(generated[0].id, "pillbuttoncontrollable-disabled");
}

#[test]
fn a_component_story_shape_follows_its_parameters() {
    assert_eq!(story_shape(&vec![]), StoryShape::NoArguments);
    assert_eq!(story_shape(&vec![param(Some("props"), Some("ButtonProps"), vec![])]), StoryShape::SingleProps);
    assert_eq!(story_shape(&vec![param(Some("label"), Some("String"), vec![])]), StoryShape::Parameters);
    assert_eq!(
        story_shape(&vec![param(Some("props"), None, vec![]), param(Some("x"), None, vec![])]),
        StoryShape::Parameters
    );
}
