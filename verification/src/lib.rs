//! A tag-scoped, cyclable layout-generator selector for tiling window managers.
//!
//! A layout cycler owns a fixed, non-empty list of layout generators and
//! keeps an independent cursor into that list for every tag (virtual
//! desktop) it has been asked about. Cycling a tag forward or backward moves
//! only that tag's cursor, wrapping circularly; requesting a layout
//! dispatches to the generator currently selected for the current tag and
//! yields a geometric tree with exactly one leaf slot per window.
//!
//! Alongside the cycler, [`tags`] decides which tag a tab-switch focuses,
//! from each tag's (active, occupied) summary.

pub mod cycler;
pub mod generators;
pub mod tags;
pub mod tree;
