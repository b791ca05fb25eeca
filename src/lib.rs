//! Repository analytics: folds a sequence of commit records into author
//! rankings, temporal activity patterns, file hotspots and quality indicators.
//!
//! `analysis::perform_final_analysis` runs the pass over the records;
//! `ranking::rank_authors` and `ranking::leaderboard_bus_factor` order the
//! authors it finds, given the insertion weight of each.
pub mod analysis;
pub mod authors;
pub mod classify;
pub mod clock;
pub mod hotspots;
pub mod model;
pub mod ranking;
pub mod tally;
