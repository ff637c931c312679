//! The traits through which components describe their default story values.
use vstd::prelude::*;

verus! {

/// Produces a single default story value for one component parameter.
pub trait StoryArg: Sized {
    fn story_arg() -> Self;
}

/// Produces one or more story values for aggregate props types.
pub trait StoryArgs: Sized {
    fn stories() -> (r: Vec<Self>);
}

impl<T: StoryArg> StoryArgs for T {
    /// The one value `story_arg` gives.
    fn stories() -> (r: Vec<Self>)
        ensures
            r@.len() == 1,
    {
        let mut v: Vec<T> = Vec::new();
        v.push(T::story_arg());
        v
    }
}

/// Produces one or more named prop sets for a showcase component.
pub trait StoryProps: Sized {
    fn stories() -> Vec<StoryVariant<Self>>;
}

/// One prop set, optionally named; a name becomes the last segment of the story title.
#[derive(Debug, Clone, PartialEq, Eq)]
pub struct StoryVariant<T> {
    pub name: Option<String>,
    pub value: T,
}

impl<T> StoryVariant<T> {
    /// A variant without a name: the story keeps the component's title.
    pub fn unnamed(value: T) -> (r: Self)
        ensures
            r.name is None,
            r.value == value,
    {
        StoryVariant { name: None, value }
    }

    /// A variant called `name`.
    pub fn named(name: &str, value: T) -> (r: Self)
        ensures
            r.name is Some,
            r.name->0@ == name@,
            r.value == value,
    {
        StoryVariant { name: Some(name.to_owned()), value }
    }
}

/// The placeholder text string parameters start with.
pub const PLACEHOLDER_TEXT: &'static str = "Lorem Ipsum";

impl StoryArg for bool {
    fn story_arg() -> (r: Self)
        ensures
            r == false,
    {
        false
    }
}

impl StoryArg for char {
    fn story_arg() -> (r: Self)
        ensures
            r == '\0',
    {
        '\0'
    }
}

impl StoryArg for i8 {
    fn story_arg() -> (r: Self)
        ensures
            r == 0,
    {
        0
    }
}

impl StoryArg for i16 {
    fn story_arg() -> (r: Self)
        ensures
            r == 0,
    {
        0
    }
}

impl StoryArg for i32 {
    fn story_arg() -> (r: Self)
        ensures
            r == 0,
    {
        0
    }
}

impl StoryArg for i64 {
    fn story_arg() -> (r: Self)
        ensures
            r == 0,
    {
        0
    }
}

impl StoryArg for i128 {
    fn story_arg() -> (r: Self)
        ensures
            r == 0,
    {
        0
    }
}

impl StoryArg for isize {
    fn story_arg() -> (r: Self)
        ensures
            r == 0,
    {
        0
    }
}

impl StoryArg for u8 {
    fn story_arg() -> (r: Self)
        ensures
            r == 0,
    {
        0
    }
}

impl StoryArg for u16 {
    fn story_arg() -> (r: Self)
        ensures
            r == 0,
    {
        0
    }
}

impl StoryArg for u32 {
    fn story_arg() -> (r: Self)
        ensures
            r == 0,
    {
        0
    }
}

impl StoryArg for u64 {
    fn story_arg() -> (r: Self)
        ensures
            r == 0,
    {
        0
    }
}

impl StoryArg for u128 {
    fn story_arg() -> (r: Self)
        ensures
            r == 0,
    {
        0
    }
}

impl StoryArg for usize {
    fn story_arg() -> (r: Self)
        ensures
            r == 0,
    {
        0
    }
}

impl StoryArg for &'static str {
    fn story_arg() -> (r: Self)
        ensures
            r@ == PLACEHOLDER_TEXT@,
    {
        PLACEHOLDER_TEXT
    }
}

impl StoryArg for String {
    fn story_arg() -> (r: Self)
        ensures
            r@ == PLACEHOLDER_TEXT@,
    {
        PLACEHOLDER_TEXT.to_owned()
    }
}

impl<T> StoryArg for Option<T> {
    fn story_arg() -> (r: Self)
        ensures
            r is None,
    {
        None
    }
}

impl<T> StoryArg for Vec<T> {
    fn story_arg() -> (r: Self)
        ensures
            r@.len() == 0,
    {
        Vec::new()
    }
}

} // verus!
