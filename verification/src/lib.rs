//! Computes the numbers of a GitHub stats card (totals, streaks, the
//! contribution grid, the language chart, repository highlights) from what
//! the GitHub GraphQL API answers.

pub mod model;
pub mod streaks;
pub mod grid;
pub mod text;
pub mod languages;
pub mod repos;
pub mod dates;
pub mod stats;
pub mod reorder;
