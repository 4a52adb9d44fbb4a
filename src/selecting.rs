pub mod before_and_after;
pub mod filter_map;
