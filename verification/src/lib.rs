//! Verified core of a Move compile-and-deploy service.
//!
//! The library turns one compile request into a uniquely named build
//! workspace, resolves the manifest's address section, extracts and names
//! the binary modules a toolchain hands back, and validates and parses the
//! output of proxied deploy or test commands.  Everything that touches the
//! file system, the network or a subprocess lives outside this crate; the
//! library works on plain values and states what it computes.

pub mod cli;
pub mod compile;
pub mod extract;
pub mod numfmt;
pub mod proxy;
pub mod strutil;
pub mod utils;
pub mod workspace;

pub use cli::CliOptions;
pub use cli::Commands;
pub use cli::DisassembleArgs;
pub use compile::CompileOptions;
pub use compile::CompileResult;
pub use utils::format_error;
pub use utils::format_success;
pub use utils::get_file_name;
