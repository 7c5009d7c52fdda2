//! The core of a script runner: a worker that executes scripts one at a time,
//! the messages that it exchanges with the interface that controls it, and
//! what the interface keeps and shows.
//!
//! The library holds neither the thread nor the scripting engine. Whoever
//! embeds it runs the worker's loop: it asks the runner for the worker's next
//! action, has the engine execute what is to be executed, and hands the
//! result back.

pub mod app;
pub mod code_editor;
pub mod js_runner;
pub mod laws;
