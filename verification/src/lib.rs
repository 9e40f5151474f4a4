//! Tone-tag standards, verified.
//!
//! A *standard* is a named document of tag definitions: `/`-prefixed tokens
//! mapped to explanations. This library holds the three algorithms of the
//! system: the line-oriented parser that turns a document into a
//! [`standard::Standard`], the bounded per-user preference cache
//! [`cache::UserStdsCache`] whose persistence calls the surrounding program
//! performs, and the backward trailing-token scan [`report::report_on`] that
//! assembles a report for a message.

pub mod assoc;
pub mod cache;
pub mod commands;
pub mod report;
pub mod standard;
pub mod text;
