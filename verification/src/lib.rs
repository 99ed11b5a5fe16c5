//! Headless core of an assistant chat: the thread and message model, the
//! event reducer that folds a runtime's event stream into a thread, the
//! mapping from Agent Client Protocol updates to those events, the
//! permission and approval bookkeeping of an ACP connection, the bounded
//! terminal output buffer, and the state of a chat controller.

pub mod controller;
pub mod mapping;
pub mod model;
pub mod protocol;
pub mod runtime;
pub mod seqs;
pub mod session;
pub mod terminal;
pub mod text;
pub mod thread;
pub mod view;
