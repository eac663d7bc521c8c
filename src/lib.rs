pub mod laws;
pub mod literal;
pub mod parser;
pub mod print;
pub mod shape;
pub mod tokenizer;
pub mod value;

pub use value::JsonVal;
pub use value::Number;
pub use value::ObjectMap;
