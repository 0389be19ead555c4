pub mod map;
pub mod materialize;
pub mod scan;
