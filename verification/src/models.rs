pub mod compare_options;
pub mod compare_result;
pub mod composite_key;
pub mod difference;
pub mod file_info;
pub mod parse_options;
