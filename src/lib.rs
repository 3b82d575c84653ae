pub mod annotate;
pub mod ast;
pub mod evaluator;
pub mod interaction_net;
pub mod lower;
pub mod parser;
pub mod stack;
pub mod tokenizer;
pub mod utils;
pub mod value;
