//! Core of a synchronized media viewer: a control-protocol client for a
//! local playback process, a line-framed synchronization wire format with
//! its session state, the server and client decision cores, and the
//! position-validation state machine that filters spurious backward jumps
//! in reported playlist positions.

pub mod client;
pub mod ipc;
pub mod keybinds;
pub mod media;
pub mod num;
pub mod playlist;
pub mod protocol;
pub mod server;
pub mod text;
pub mod validator;
pub mod wire;
