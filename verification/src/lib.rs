//! Extraction of a value at a dotted key path inside a parsed configuration
//! document, and shell-safe rendering of the value that was found: scalars
//! print bare, arrays print as a space-separated token list of their scalar
//! elements, and tables print as `[key]=value` assignments.

pub mod value;
pub mod text;
pub mod path;
pub mod shell;
pub mod render;
