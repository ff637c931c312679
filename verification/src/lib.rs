//! Core logic of a storybook-style component showcase for Dioxus.
pub mod config;
pub mod format;
pub mod json;
pub mod manifest;
pub mod navigation;
pub mod runtime;
pub mod scaffold;
pub mod slug;
pub mod templates;
pub mod text;
pub mod paths;
pub mod check;
pub mod discovery;
pub mod cli;
pub mod facade;
pub mod prelude;
pub mod meta;
pub mod base_path;
pub mod order;
pub mod filters;
pub mod theme;
pub mod sidebar;
pub mod sorting;
pub mod registration;
pub mod commands;
pub mod dev;
pub mod controls;
pub mod rust_source;
pub mod expansion;
pub mod source_walk;
