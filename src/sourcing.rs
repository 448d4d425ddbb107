pub mod read_source;
pub mod source_reader;
pub mod source_string;
pub mod sourcing_error;
