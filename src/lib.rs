//! Front end for the wire-message description language: a scanner that turns
//! comma-separated declaration lines into tokens, and a parser that turns the
//! tokens into a symbol table of message types and TLV streams.
pub mod ast;
pub mod parser;
pub mod scanner;
pub mod table;
pub mod token;

pub use ast::{LNMsData, LNMsg, LNMsgType, LNSubType, LNTlvEntry, LNTlvRecord};
pub use parser::{ParseError, Parser};
pub use scanner::{ScanError, Scanner};
pub use table::SymbolTable;
pub use token::{CSVToken, CSVTokenType};
