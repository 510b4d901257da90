pub mod error;
pub mod laws;
pub mod definitions;
pub mod source_category_converter;
pub mod table;
