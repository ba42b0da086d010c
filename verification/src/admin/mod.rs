//! The administration interface: what its requests change and what they are answered.
pub mod apply;
pub mod data_files;
pub mod error;
pub mod laws;
pub mod overview;
pub mod paths;
pub mod plans;
pub mod request_laws;
pub mod requests;
pub mod section_laws;
pub mod sections;
pub mod table_laws;
pub mod values;
pub mod views;
pub mod zone_laws;
pub mod zone_tables;
pub mod zones;
