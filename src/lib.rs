pub mod dictionary;
pub mod hover;
pub mod store;
pub mod table;
