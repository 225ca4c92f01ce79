//! Verified core of the kaniran dictionary layer: grammar suffix tables,
//! inter-word synergies, kana hint insertion, lite segmentation structures
//! and the decision logic of the dictionary loaders.

pub mod alist;
pub mod text;
pub mod dict_predicates;
pub mod word;
pub mod hint;
pub mod segment;
pub mod synergy;
pub mod suffix;
pub mod suffix_load;
pub mod suffix_lookup;
pub mod context;
pub mod suffix_rules;
pub mod loader;
pub mod substring;
pub mod counter;
pub mod split;
