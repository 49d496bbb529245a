//! A Kconfig-style build-configuration engine: parsing of configuration
//! language files, a symbol table with dependency tracking, tristate value
//! resolution, and the text formats for saved configurations.

pub mod ast;
pub mod config_text;
pub mod expr;
pub mod laws;
pub mod lexer;
pub mod parser;
pub mod populate;
pub mod resolve;
pub mod symbol;
pub mod text;
pub mod tristate;
pub mod value;

pub use config_text::{ConfigGenerator, ConfigReader, ConfigWriter};
pub use symbol::{Symbol, SymbolTable};
pub use tristate::Tristate;
pub use value::{ConfigValue, SymbolType};
