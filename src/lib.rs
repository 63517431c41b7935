pub mod dfa;
pub mod lexer;
pub mod nfa;
pub mod node;
pub mod parser;
pub mod regex;
