pub mod assoc;
pub mod scan;
pub mod source;
pub mod sorted;
pub mod text;
pub mod runtime_2;
pub mod lexer_2;
pub mod parser_2;
pub mod ast;
pub mod binding;
pub mod class;
pub mod compiler;
pub mod ir;
pub mod parse_binding;
pub mod compiler_2;
pub mod grammar;
pub mod lexer;
pub mod object_builder;
pub mod parse_error;
pub mod scope;
pub mod module_loader;
pub mod frame;
pub mod native;
