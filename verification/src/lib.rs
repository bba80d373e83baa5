//! A compiler front end for a small C subset: a tokenizer, a recursive
//! descent parser, an AST-to-IR lowering stage, and a stack-offset resolver.
//! The IR operation sequence and the string-define table it produces are
//! handed to an external machine-code backend.

pub mod compile;
pub mod ir;
pub mod parse;
pub mod text;
pub mod tokenise;
pub mod variable_pass;
