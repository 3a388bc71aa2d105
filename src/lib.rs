//! Reading, selecting, ordering and printing process environments.
//!
//! The verified core works on raw environment blocks: consecutive
//! NUL-terminated `KEY=VALUE` records as operating systems store them.

pub mod args;
pub mod bytes;
pub mod env;
pub mod error;
pub mod platform_ext;
pub mod printer;
pub mod remote_apple_sysctl;
pub mod remote_debugger_helper;
pub mod remote_unix;
pub mod remote_unix_kvm;
pub mod remote_windows;

