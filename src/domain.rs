pub mod source_info;
pub mod source_location;
pub mod token;
