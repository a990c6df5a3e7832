//! Simple switch-case configuration preprocessor.
//!
//! A configuration file may hold blocks of lines that apply only to one
//! machine. A directive line — a line that begins, after optional leading
//! whitespace, with a delimiter literal — opens such a block: it either names
//! one or more identifiers (a specific block), holds a bare `*` (the fallback
//! block), or is empty after the delimiter (which closes any open block).
//! [`Parser::process`] copies a byte stream, keeping the content lines of the
//! blocks that apply to the configured identifier and dropping everything
//! else, each kept line terminated by a single newline.
//!
//! ```
//! use ssccpp::Parser;
//! let content =
//! b"1\n\
//! >>> thisone\n\
//! 2\n\
//! >>> other\n\
//! XXX\n\
//! >>>\n\
//! 3";
//! let parser = Parser::new("thisone", ">>>").unwrap();
//! let mut res: Vec<u8> = Vec::new();
//! parser.process(&content[..], &mut res);
//! let expected_result = b"1\n2\n3\n";
//! assert_eq!(expected_result, res.as_slice());
//! ```

pub mod classify;
pub mod engine;
pub mod lines;
pub mod text;

pub use classify::LineAction;
pub use engine::{EngineState, Parser, PatternError};
