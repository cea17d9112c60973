//! Verified core of a kana/vocabulary endless-runner trainer: the SM-2 review
//! scheduler that picks the word shown on each gate, the statistics shown about
//! it, the integer raster operations used to bake outlined text, the text cache,
//! and the mapping of fetched vocabulary rows.

pub mod sr;
pub mod stats;
pub mod raster;
pub mod textbake;
pub mod supabase;
pub mod gesture;
