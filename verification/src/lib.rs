//! A generic text preprocessor.
//!
//! Input text is rewritten line by line: named macros are expanded wherever
//! they occur as whole words, `#ifdef`/`#ifndef`/`#elifdef`/`#elifndef`/
//! `#else`/`#endif` groups include or suppress lines depending on which macros
//! are defined, `#define` and `#undef` edit the macro table, `#include`
//! splices another file, and (when permitted) `#exec`, `#in` and `#endin`
//! pipe text through shell commands.
//!
//! The engine itself never touches a file or spawns a process: everything it
//! needs from the operating system goes through the [`Host`] trait, so the
//! whole rewriting logic is verified, and a caller decides how files are read
//! and commands are run.

pub mod chars;
pub mod context;
pub mod driver;
pub mod engine;
pub mod error;
pub mod host;
pub mod subst;
pub mod table;
pub mod text;

pub use crate::context::Context;
pub use crate::driver::process_buf;
pub use crate::driver::process_file;
pub use crate::driver::process_str;
pub use crate::engine::process_line;
pub use crate::error::Error;
pub use crate::host::Host;
pub use crate::table::MacroTable;
