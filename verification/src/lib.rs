pub mod laws;
pub mod lexer;
pub mod locality;
pub mod model;
pub mod token;
