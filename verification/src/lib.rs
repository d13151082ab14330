//! Verified core of a Windows file manager: path handling, network locations, drag and drop,
//! directory watching, helper-process protocols and shell registration rules.
pub mod bytes;
pub mod errors;
pub mod network;
pub mod operation_audit;
pub mod platform;
pub mod shell_probe;
pub mod text;
pub mod wide;
pub mod windows;
pub mod winpath;
