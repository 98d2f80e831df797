//! Nominal lists and level-balanced nominal trees, with verified folds,
//! conversions, merging and sorting over them.
pub mod name;
pub mod art;
pub mod collection;
pub mod collection_algo;
pub mod list;
pub mod structures;
