//! How a story function's parameters become live controls: which control each parameter
//! gets and which value it starts from.
use vstd::prelude::*;

use crate::navigation::opt_view;
use crate::text::str_eq;

verus! {

/// A `#[default ...]` attribute on a parameter.
pub enum DefaultAttr {
    /// `#[default = <expression>]`.
    NameValue,
    /// Any other form.
    Malformed,
}

/// A story function parameter, as far as the rules look into it.
pub struct StoryParam {
    /// Whether the parameter is `self` in some form.
    pub is_receiver: bool,
    /// The parameter's name when its pattern is a plain identifier.
    pub ident: Option<String>,
    /// The last segment of the parameter's type when that is a path without a qualified self.
    pub ty_ident: Option<String>,
    /// The parameter's `#[default ...]` attributes, in order.
    pub defaults: Vec<DefaultAttr>,
}

/// The widget that edits a parameter.
#[derive(Clone, Copy, Debug, PartialEq, Eq, Structural)]
pub enum ControlKind {
    /// A text input, for `String`.
    Text,
    /// A checkbox, for `bool`.
    Checkbox,
    /// A number input, for the integer and float types.
    Number,
}

/// What a parameter starts from.
#[derive(Clone, Copy, Debug, PartialEq, Eq, Structural)]
pub enum InitialValue {
    /// `StoryArg::story_arg()` of the parameter's type.
    StoryArg,
    /// The `#[default]` expression, widened with `String::from`.
    StringFrom,
    /// The `#[default]` expression as written.
    Expression,
}

/// The plan for one parameter.
pub struct ParamPlan {
    pub name: String,
    pub control: Option<ControlKind>,
    pub initial: InitialValue,
}

/// The error for a function that takes `self`.
pub const RECEIVER_REJECTED: &'static str = "showcase functions must not take a receiver argument";

/// The error for a parameter pattern that is not a plain identifier.
pub const PATTERN_REJECTED: &'static str = "showcase function parameters must use simple identifier names when not using a props struct";

/// The error for a `#[default]` that is not `#[default = <expression>]`.
pub const DEFAULT_MALFORMED: &'static str = "showcase parameter defaults are written #[default = <expression>]";

/// The error for a second `#[default]`.
pub const DEFAULT_REPEATED: &'static str = "a showcase parameter takes at most one #[default]";

/// The names of the numeric types a number input edits.
pub open spec fn is_numeric_name(n: Seq<char>) -> bool {
    n == "i8"@ || n == "i16"@ || n == "i32"@ || n == "i64"@ || n == "i128"@ || n == "isize"@
        || n == "u8"@ || n == "u16"@ || n == "u32"@ || n == "u64"@ || n == "u128"@ || n
        == "usize"@ || n == "f32"@ || n == "f64"@
}

/// The control a parameter of the named type gets, if any.
pub open spec fn control_for(ty_ident: Option<Seq<char>>) -> Option<ControlKind> {
    match ty_ident {
        Some(n) => if n == "String"@ {
            Some(ControlKind::Text)
        } else if n == "bool"@ {
            Some(ControlKind::Checkbox)
        } else if is_numeric_name(n) {
            Some(ControlKind::Number)
        } else {
            None
        },
        None => None,
    }
}

/// Whether `defaults[..n]` holds a well-formed `#[default]`, or the error in it.
pub open spec fn default_scan(defaults: Seq<DefaultAttr>, n: int) -> Result<bool, Seq<char>>
    decreases n,
{
    if n <= 0 {
        Ok(false)
    } else {
        match default_scan(defaults, n - 1) {
            Err(e) => Err(e),
            Ok(found) => match defaults[n - 1] {
                DefaultAttr::Malformed => Err(DEFAULT_MALFORMED@),
                DefaultAttr::NameValue => if found {
                    Err(DEFAULT_REPEATED@)
                } else {
                    Ok(true)
                },
            },
        }
    }
}

/// The starting value of a parameter, or the error in its defaults.
pub open spec fn initial_for(p: StoryParam) -> Result<InitialValue, Seq<char>> {
    match default_scan(p.defaults@, p.defaults@.len() as int) {
        Err(e) => Err(e),
        Ok(false) => Ok(InitialValue::StoryArg),
        Ok(true) => if opt_view(p.ty_ident) == Some("String"@) {
            Ok(InitialValue::StringFrom)
        } else {
            Ok(InitialValue::Expression)
        },
    }
}

/// The plan of one parameter, or the rule it breaks.
pub open spec fn plan_for(p: StoryParam) -> Result<(Seq<char>, Option<ControlKind>, InitialValue), Seq<char>> {
    if p.is_receiver {
        Err(RECEIVER_REJECTED@)
    } else {
        match p.ident {
            None => Err(PATTERN_REJECTED@),
            Some(name) => match initial_for(p) {
                Err(e) => Err(e),
                Ok(initial) => Ok((name@, control_for(opt_view(p.ty_ident)), initial)),
            },
        }
    }
}

/// The plans of `params[..n]`, or the first rule broken.
pub open spec fn plans_for(params: Seq<StoryParam>, n: int) -> Result<
    Seq<(Seq<char>, Option<ControlKind>, InitialValue)>,
    Seq<char>,
>
    decreases n,
{
    if n <= 0 {
        Ok(Seq::empty())
    } else {
        match plans_for(params, n - 1) {
            Err(e) => Err(e),
            Ok(prev) => match plan_for(params[n - 1]) {
                Err(e) => Err(e),
                Ok(plan) => Ok(prev.push(plan)),
            },
        }
    }
}

/// The content of a plan.
pub open spec fn plan_view(p: ParamPlan) -> (Seq<char>, Option<ControlKind>, InitialValue) {
    (p.name@, p.control, p.initial)
}

fn name_is(name: &Option<String>, expected: &str) -> (r: bool)
    ensures
        r == (opt_view(*name) == Some(expected@)),
{
    match name {
        Some(n) => str_eq(n.as_str(), expected),
        None => false,
    }
}

/// Every primitive integer and float type gets a number input, `String` a text input and
/// `bool` a checkbox; a parameter of any other type, or of a type without a name, gets no
/// control.
pub proof fn lemma_controls_by_type()
    ensures
        control_for(Some("i8"@)) == Some(ControlKind::Number),
        control_for(Some("i16"@)) == Some(ControlKind::Number),
        control_for(Some("i32"@)) == Some(ControlKind::Number),
        control_for(Some("i64"@)) == Some(ControlKind::Number),
        control_for(Some("i128"@)) == Some(ControlKind::Number),
        control_for(Some("isize"@)) == Some(ControlKind::Number),
        control_for(Some("u8"@)) == Some(ControlKind::Number),
        control_for(Some("u16"@)) == Some(ControlKind::Number),
        control_for(Some("u32"@)) == Some(ControlKind::Number),
        control_for(Some("u64"@)) == Some(ControlKind::Number),
        control_for(Some("u128"@)) == Some(ControlKind::Number),
        control_for(Some("usize"@)) == Some(ControlKind::Number),
        control_for(Some("f32"@)) == Some(ControlKind::Number),
        control_for(Some("f64"@)) == Some(ControlKind::Number),
        control_for(Some("String"@)) == Some(ControlKind::Text),
        control_for(Some("bool"@)) == Some(ControlKind::Checkbox),
        control_for(None) == None::<ControlKind>,
        forall|n: Seq<char>|
            !(n == "i8"@ || n == "i16"@ || n == "i32"@ || n == "i64"@ || n == "i128"@ || n == "isize"@ || n == "u8"@ || n == "u16"@ || n == "u32"@ || n == "u64"@ || n == "u128"@ || n == "usize"@ || n == "f32"@ || n == "f64"@ || n == "String"@ || n == "bool"@) ==> #[trigger] control_for(Some(n)) == None::<ControlKind>,
{
    reveal_strlit("i8");
    reveal_strlit("i16");
    reveal_strlit("i32");
    reveal_strlit("i64");
    reveal_strlit("i128");
    reveal_strlit("isize");
    reveal_strlit("u8");
    reveal_strlit("u16");
    reveal_strlit("u32");
    reveal_strlit("u64");
    reveal_strlit("u128");
    reveal_strlit("usize");
    reveal_strlit("f32");
    reveal_strlit("f64");
    reveal_strlit("String");
    reveal_strlit("bool");
    assert("String"@.len() == 6 && "bool"@.len() == 4);
    assert("i8"@.len() == 2 && "i8"@ != "String"@ && "i8"@ != "bool"@);
    assert("i16"@.len() == 3 && "i16"@ != "String"@ && "i16"@ != "bool"@);
    assert("i32"@.len() == 3 && "i32"@ != "String"@ && "i32"@ != "bool"@);
    assert("i64"@.len() == 3 && "i64"@ != "String"@ && "i64"@ != "bool"@);
    assert("i128"@[0] != "bool"@[0]);
    assert("i128"@.len() == 4 && "i128"@ != "String"@ && "i128"@ != "bool"@);
    assert("isize"@.len() == 5 && "isize"@ != "String"@ && "isize"@ != "bool"@);
    assert("u8"@.len() == 2 && "u8"@ != "String"@ && "u8"@ != "bool"@);
    assert("u16"@.len() == 3 && "u16"@ != "String"@ && "u16"@ != "bool"@);
    assert("u32"@.len() == 3 && "u32"@ != "String"@ && "u32"@ != "bool"@);
    assert("u64"@.len() == 3 && "u64"@ != "String"@ && "u64"@ != "bool"@);
    assert("u128"@[0] != "bool"@[0]);
    assert("u128"@.len() == 4 && "u128"@ != "String"@ && "u128"@ != "bool"@);
    assert("usize"@.len() == 5 && "usize"@ != "String"@ && "usize"@ != "bool"@);
    assert("f32"@.len() == 3 && "f32"@ != "String"@ && "f32"@ != "bool"@);
    assert("f64"@.len() == 3 && "f64"@ != "String"@ && "f64"@ != "bool"@);
}

/// Chooses the control for a parameter type.
pub fn story_control(ty_ident: &Option<String>) -> (r: Option<ControlKind>)
    ensures
        r == control_for(opt_view(*ty_ident)),
{
    if name_is(ty_ident, "String") {
        return Some(ControlKind::Text);
    }
    if name_is(ty_ident, "bool") {
        return Some(ControlKind::Checkbox);
    }
    let numeric = name_is(ty_ident, "i8") || name_is(ty_ident, "i16") || name_is(ty_ident, "i32")
        || name_is(ty_ident, "i64") || name_is(ty_ident, "i128") || name_is(ty_ident, "isize")
        || name_is(ty_ident, "u8") || name_is(ty_ident, "u16") || name_is(ty_ident, "u32")
        || name_is(ty_ident, "u64") || name_is(ty_ident, "u128") || name_is(ty_ident, "usize")
        || name_is(ty_ident, "f32") || name_is(ty_ident, "f64");
    if numeric {
        Some(ControlKind::Number)
    } else {
        None
    }
}

/// Chooses the starting value of a parameter from its `#[default]` attributes.
pub fn param_default(param: &StoryParam) -> (r: Result<InitialValue, String>)
    ensures
        match initial_for(*param) {
            Ok(v) => r == Ok::<InitialValue, String>(v),
            Err(e) => r is Err && r->Err_0@ == e,
        },
{
    let mut found = false;
    let mut i: usize = 0;
    while i < param.defaults.len()
        invariant
            i <= param.defaults@.len(),
            default_scan(param.defaults@, i as int) == Ok::<bool, Seq<char>>(found),
        decreases param.defaults@.len() - i,
    {
        match param.defaults[i] {
            DefaultAttr::Malformed => {
                proof {
                    lemma_default_scan_error_sticks(param.defaults@, i + 1, param.defaults@.len() as int);
                }
                return Err(DEFAULT_MALFORMED.to_owned());
            },
            DefaultAttr::NameValue => {
                if found {
                    proof {
                        lemma_default_scan_error_sticks(param.defaults@, i + 1, param.defaults@.len() as int);
                    }
                    return Err(DEFAULT_REPEATED.to_owned());
                }
                found = true;
            },
        }
        i = i + 1;
    }
    if !found {
        Ok(InitialValue::StoryArg)
    } else if name_is(&param.ty_ident, "String") {
        Ok(InitialValue::StringFrom)
    } else {
        Ok(InitialValue::Expression)
    }
}

proof fn lemma_default_scan_error_sticks(defaults: Seq<DefaultAttr>, k: int, n: int)
    requires
        0 <= k <= n,
        default_scan(defaults, k) is Err,
    ensures
        default_scan(defaults, n) == default_scan(defaults, k),
    decreases n - k,
{
    if k < n {
        lemma_default_scan_error_sticks(defaults, k, n - 1);
    }
}

/// Plans the controls of a story function's parameters, in order.
pub fn story_arg_bindings(params: &Vec<StoryParam>) -> (r: Result<Vec<ParamPlan>, String>)
    ensures
        match plans_for(params@, params@.len() as int) {
            Ok(plans) => r is Ok && r->Ok_0@.map_values(|p: ParamPlan| plan_view(p)) == plans,
            Err(e) => r is Err && r->Err_0@ == e,
        },
{
    let mut plans: Vec<ParamPlan> = Vec::new();
    let mut i: usize = 0;
    proof {
        assert(plans@.map_values(|p: ParamPlan| plan_view(p)) =~= Seq::<(Seq<char>, Option<ControlKind>, InitialValue)>::empty());
    }
    while i < params.len()
        invariant
            i <= params@.len(),
            plans_for(params@, i as int) is Ok,
            plans@.map_values(|p: ParamPlan| plan_view(p)) == plans_for(params@, i as int)->Ok_0,
        decreases params@.len() - i,
    {
        let param = &params[i];
        if param.is_receiver {
            proof {
                lemma_plans_error_sticks(params@, i + 1, params@.len() as int);
            }
            return Err(RECEIVER_REJECTED.to_owned());
        }
        let name = match &param.ident {
            Some(n) => n.clone(),
            None => {
                proof {
                    lemma_plans_error_sticks(params@, i + 1, params@.len() as int);
                }
                return Err(PATTERN_REJECTED.to_owned());
            },
        };
        let initial = match param_default(param) {
            Ok(v) => v,
            Err(e) => {
                proof {
                    lemma_plans_error_sticks(params@, i + 1, params@.len() as int);
                }
                return Err(e);
            },
        };
        let plan = ParamPlan { name, control: story_control(&param.ty_ident), initial };
        proof {
            assert(plans@.push(plan).map_values(|p: ParamPlan| plan_view(p)) =~= plans@.map_values(
                |p: ParamPlan| plan_view(p),
            ).push(plan_view(plan)));
        }
        plans.push(plan);
        i = i + 1;
    }
    Ok(plans)
}

proof fn lemma_plans_error_sticks(params: Seq<StoryParam>, k: int, n: int)
    requires
        0 <= k <= n,
        plans_for(params, k) is Err,
    ensures
        plans_for(params, n) == plans_for(params, k),
    decreases n - k,
{
    if k < n {
        lemma_plans_error_sticks(params, k, n - 1);
    }
}


/// The error for a provider that takes `self`.
pub const PROVIDER_RECEIVER_REJECTED: &'static str = "provider functions must not take a receiver argument";

/// The error for a provider parameter pattern that is not a plain identifier.
pub const PROVIDER_PATTERN_REJECTED: &'static str = "provider function parameters must use simple identifier names";

/// The error for a provider with two `children` parameters.
pub const PROVIDER_CHILDREN_REPEATED: &'static str = "provider components may only declare one `children` parameter";

/// The error for a provider without a `children` parameter.
pub const PROVIDER_CHILDREN_MISSING: &'static str = "provider components must declare a `children` parameter explicitly";

/// Scans `params[..n]` of a provider: the props other than `children` in order and whether
/// `children` was seen, or the first rule broken.
pub open spec fn provider_scan(params: Seq<StoryParam>, n: int) -> Result<(Seq<Seq<char>>, bool), Seq<char>>
    decreases n,
{
    if n <= 0 {
        Ok((Seq::empty(), false))
    } else {
        match provider_scan(params, n - 1) {
            Err(e) => Err(e),
            Ok((props, children)) => {
                let p = params[n - 1];
                if p.is_receiver {
                    Err(PROVIDER_RECEIVER_REJECTED@)
                } else {
                    match p.ident {
                        None => Err(PROVIDER_PATTERN_REJECTED@),
                        Some(name) => if name@ == "children"@ {
                            if children {
                                Err(PROVIDER_CHILDREN_REPEATED@)
                            } else {
                                Ok((props, true))
                            }
                        } else {
                            Ok((props.push(name@), children))
                        },
                    }
                }
            },
        }
    }
}

/// The props a provider's wrapper fills with `StoryArg` defaults, or the rule broken.
pub open spec fn provider_props_of(params: Seq<StoryParam>) -> Result<Seq<Seq<char>>, Seq<char>> {
    match provider_scan(params, params.len() as int) {
        Err(e) => Err(e),
        Ok((props, children)) => if children {
            Ok(props)
        } else {
            Err(PROVIDER_CHILDREN_MISSING@)
        },
    }
}

proof fn lemma_provider_error_sticks(params: Seq<StoryParam>, k: int, n: int)
    requires
        0 <= k <= n,
        provider_scan(params, k) is Err,
    ensures
        provider_scan(params, n) == provider_scan(params, k),
    decreases n - k,
{
    if k < n {
        lemma_provider_error_sticks(params, k, n - 1);
    }
}

/// Checks a provider's parameters and lists the props, other than `children`, that its
/// wrapper fills with `StoryArg` defaults.
pub fn provider_props(params: &Vec<StoryParam>) -> (r: Result<Vec<String>, String>)
    ensures
        match provider_props_of(params@) {
            Ok(props) => r is Ok && crate::manifest::strings_view(r->Ok_0@) == props,
            Err(e) => r is Err && r->Err_0@ == e,
        },
{
    let mut props: Vec<String> = Vec::new();
    let mut children = false;
    let mut i: usize = 0;
    proof {
        assert(crate::manifest::strings_view(props@) =~= Seq::<Seq<char>>::empty());
    }
    while i < params.len()
        invariant
            i <= params@.len(),
            provider_scan(params@, i as int) == Ok::<(Seq<Seq<char>>, bool), Seq<char>>(
                (crate::manifest::strings_view(props@), children),
            ),
        decreases params@.len() - i,
    {
        let param = &params[i];
        if param.is_receiver {
            proof {
                lemma_provider_error_sticks(params@, i + 1, params@.len() as int);
            }
            return Err(PROVIDER_RECEIVER_REJECTED.to_owned());
        }
        match &param.ident {
            None => {
                proof {
                    lemma_provider_error_sticks(params@, i + 1, params@.len() as int);
                }
                return Err(PROVIDER_PATTERN_REJECTED.to_owned());
            },
            Some(name) => {
                if str_eq(name.as_str(), "children") {
                    if children {
                        proof {
                            lemma_provider_error_sticks(params@, i + 1, params@.len() as int);
                        }
                        return Err(PROVIDER_CHILDREN_REPEATED.to_owned());
                    }
                    children = true;
                } else {
                    let owned = name.clone();
                    proof {
                        crate::manifest::lemma_strings_view_push(props@, owned);
                    }
                    props.push(owned);
                }
            },
        }
        i = i + 1;
    }
    if !children {
        return Err(PROVIDER_CHILDREN_MISSING.to_owned());
    }
    Ok(props)
}

/// Which kind of stories a `#[showcase]` component produces.
#[derive(Clone, Copy, Debug, PartialEq, Eq, Structural)]
pub enum StoryShape {
    /// No parameters: one story rendering the component as is.
    NoArguments,
    /// A single parameter named `props`: one story per `StoryProps` variant.
    SingleProps,
    /// Any other parameters: one story with a control per parameter.
    Parameters,
}

/// The shape of a component's stories, decided by its parameters.
pub open spec fn story_shape_of(params: Seq<StoryParam>) -> StoryShape {
    if params.len() == 0 {
        StoryShape::NoArguments
    } else if params.len() == 1 && !params[0].is_receiver && opt_view(params[0].ident) == Some(
        "props"@,
    ) {
        StoryShape::SingleProps
    } else {
        StoryShape::Parameters
    }
}

/// Decides which kind of stories a `#[showcase]` component produces.
pub fn story_shape(params: &Vec<StoryParam>) -> (r: StoryShape)
    ensures
        r == story_shape_of(params@),
{
    if params.len() == 0 {
        return StoryShape::NoArguments;
    }
    if params.len() == 1 && !params[0].is_receiver {
        let props = match &params[0].ident {
            Some(name) => str_eq(name.as_str(), "props"),
            None => false,
        };
        if props {
            return StoryShape::SingleProps;
        }
    }
    StoryShape::Parameters
}

} // verus!
