//! Hooks that connect the Grok command line tool to the hcom message bus.
//!
//! [`setup`] puts the hooks into the file that Grok reads them from, tests whether they are
//! there and takes them out again; [`install`] does so on the JSON value of the file, and
//! [`paths`] says where the file stands. [`dispatch`] runs one hook when Grok calls it;
//! [`handlers`] says what each hook does, and [`payload`] what it reads from Grok.
//!
//! Everything here decides and computes. What touches files, the terminal or the message bus is
//! described by the actions and effects that these functions return, and is done by the process.
//!
//! What holds of these functions is proved in [`file_laws`], [`install_laws`], [`readback`],
//! [`setup_laws`], [`hook_laws`], [`dispatch_laws`], [`payload_laws`] and [`view_laws`].

pub mod commands;
pub mod dispatch;
pub mod dispatch_laws;
pub mod file_laws;
pub mod handlers;
pub mod hook_laws;
pub mod install;
pub mod install_laws;
pub mod json;
pub mod paths;
pub mod payload;
pub mod payload_laws;
pub mod readback;
pub mod setup;
pub mod setup_laws;
pub mod text;
pub mod view_laws;
pub mod wire;
