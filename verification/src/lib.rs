//! The arguments of the `bindgen!` macro.
//!
//! An argument list such as `"-I /usr/include", builtins = false, link = "static=z"`
//! is parsed into [`options::BindgenOptions`]:
//!
//! - [`parser`] reads the tokens of the list, one argument after the other,
//!   and reports the errors;
//! - [`visitor`] binds each argument, a name and a typed value, to the option
//!   that takes it;
//! - [`process_args`] splits a string of compiler arguments into its tokens,
//!   with quotes and escapes as a shell has them.

pub mod options;
pub mod parser;
pub mod process_args;
pub mod text;
pub mod visitor;
