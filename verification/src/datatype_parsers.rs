pub mod boolean_parser;
pub mod number_parser;
pub mod string_parser;
