//! A verified interpreter for a minimal postfix (stack-based) scripting
//! language: source text is tokenized into a closed set of token kinds, then
//! executed against an operand stack by a single-pass machine whose control
//! flow is expressed as relative conditional jumps.

pub mod codegen;
pub mod engine;
pub mod parser;
pub mod stack;
