//! The core of a manager of pseudo-terminal sessions.
//!
//! The crate holds what such a manager decides and records, and leaves every
//! system call to its host: the registry of the sessions with the commands
//! create, write, resize and close (`registry`), the reader loop of a session
//! as a state machine (`reader`), the events that a session publishes
//! (`event`), the base64 text in which output crosses to the presentation
//! layer (`transport`), what the host is asked to spawn (`terminal`), and the
//! failures of the commands (`error`). Beside them stands what the lookup of
//! a font decides (`fonts`).

pub mod error;
pub mod event;
pub mod fonts;
pub mod reader;
pub mod registry;
pub mod terminal;
pub mod transport;
