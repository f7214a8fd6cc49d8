//! Clash configuration generation for a proxy subscription converter.
//!
//! The library filters proxy descriptors by what a Clash runtime accepts,
//! serializes them, resolves proxy groups, merges everything into a parsed
//! template document, and synthesizes rule providers and a routing script
//! from a list of rulesets.

pub mod text;
pub mod model;
pub mod catalog;
pub mod filter;
pub mod remark;
pub mod yaml;
pub mod codec;
pub mod script;
pub mod clash;
pub mod rules;
pub mod web;
