//! A verified join/aggregation pipeline over three tab-separated text
//! sources describing television titles, episode-to-series links, and
//! audience ratings.
//!
//! The library builds two lookup indexes (ratings and episode links),
//! materializes series roots from the title source, attaches episodes to
//! their parent series in a second pass over the same source, filters the
//! result by an inclusion policy, and orders each series's episodes by
//! (season, episode). Every stage carries a contract pinning its result
//! to a specification function, so the whole transform is proved
//! deterministic. Reading the source files and rendering the output
//! documents are left to the (unverified) caller.

pub mod filter_sort;
pub mod index;
pub mod join;
pub mod laws;
pub mod model;
pub mod pipeline;
pub mod num;
pub mod strmap;
pub mod text;
