pub mod decoder;
pub mod delimited_parser;
pub mod delimiter;
pub mod encoding;
pub mod reader;
