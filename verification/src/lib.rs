//! Verified core of a Solidity transaction debugger: the call-tree model,
//! trace decoding into stack frames, contract identification by function
//! selectors, and the human-readable trace renderer.

pub mod cli;
pub mod decode;
pub mod escapes;
pub mod gas;
pub mod identify;
pub mod replay;
pub mod source;
pub mod text;
pub mod trace_fmt;
pub mod types;
