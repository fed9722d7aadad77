pub mod buffer;
pub mod input;
pub mod obj_parser;
pub mod obj_syntax;
pub mod terminal_output;
pub mod unique_list;
