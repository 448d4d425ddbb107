pub mod parse;
pub mod parser_choice;
pub mod parser_sequential;
pub mod parser_token;
pub mod parsing_error;
