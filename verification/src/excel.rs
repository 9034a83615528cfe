pub mod exporter;
pub mod plan;
