pub mod object;
pub mod token;
pub mod logger;
pub mod scanner;
pub mod spacing;
pub mod expression;
pub mod statement;
pub mod grammar;
pub mod parser;
pub mod environment;
pub mod interpreter;
pub mod block;
pub mod block_meta;
