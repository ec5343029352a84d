//! Verified core of a set of Lua scripting bindings: text utilities, path
//! normalisation, JSON table shaping, process output splitting and decoding,
//! archive and copy rules, regular expressions, HTTP headers and replies, the
//! script registry, and message-box and window-search rules.

pub mod archive;
pub mod copy;
pub mod desktop;
pub mod http;
pub mod json;
pub mod lines;
pub mod path;
pub mod process;
pub mod regex;
pub mod scripts;
pub mod text;
