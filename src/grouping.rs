pub mod bucket;
pub mod distribute;
pub mod split_into;
