//! Conversion of delimited tabular records into structured text formats,
//! together with the two small side utilities of the tool: a random
//! password generator and a binary-to-text codec.

pub mod codec;
pub mod convert;
pub mod emit;
pub mod opts;
pub mod password;
pub mod player;
pub mod reader;
pub mod schema;
pub mod text;
