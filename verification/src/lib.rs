pub mod reader;
pub mod screen;
pub mod table;
pub mod viewport;
