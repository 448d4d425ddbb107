pub mod dfsa;
pub mod dfsa_error;
pub mod dfsa_executor;
pub mod dfsa_types;
pub mod lexer;
pub mod lexer_trigger_action;
pub mod lexing_error;
pub mod lexer_context;
pub mod token_reader;
