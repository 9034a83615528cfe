pub mod column_order;
pub mod difference;
pub mod duplicate_detector;
pub mod key_builder;
pub mod key_comparator;
pub mod key_index;
pub mod laws;
pub mod row_comparator;
pub mod tally;
pub mod util;
