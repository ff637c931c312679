//! The items a component crate needs in scope to annotate its components.
pub use crate::facade::{StoryArg, StoryArgs, StoryProps, StoryVariant};
pub use crate::manifest::StoryDefinition;
pub use crate::runtime::{ShowcaseRegistry, StoryEntry};
