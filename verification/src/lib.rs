//! The decisions behind delegates, terminals and sessions of the goose agent.
//!
//! - Delegates: [`summon`] offers delegation, [`correlation`] and [`json`] give a delegate call its
//!   key, [`progress`] and [`tailer`] write and follow its progress file, [`tailed_files`] keeps a
//!   file from being followed twice, and [`delegate_status`], [`sanitize`], [`renderer`] and
//!   [`renderer_handle`] show what delegates are doing.
//! - Terminals: [`terminal`] and [`terminal_buffer`] run commands for an agent and keep what these
//!   print.
//! - Sessions: [`session`], [`session_list`], [`session_remove`], [`session_export`], [`markdown`]
//!   and [`session_select`] are behind the commands on stored sessions.
//!
//! [`text`], [`decimal`], [`ordered_map`], [`paths`] and [`clock`] serve them all. Nothing here
//! touches files, processes or terminals: functions take what was read and return what is to be
//! done.

pub mod clock;
pub mod correlation;
pub mod decimal;
pub mod delegate_status;
pub mod json;
pub mod markdown;
pub mod ordered_map;
pub mod paths;
pub mod progress;
pub mod renderer;
pub mod renderer_handle;
pub mod sanitize;
pub mod session;
pub mod session_export;
pub mod session_list;
pub mod session_remove;
pub mod session_select;
pub mod summon;
pub mod tailed_files;
pub mod tailer;
pub mod terminal;
pub mod terminal_buffer;
pub mod text;
