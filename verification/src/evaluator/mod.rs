//! The verified parts of the Jutsu runtime: variable scopes, the shared
//! message queue, and the text built-ins.
pub mod env;
pub mod queue;
pub mod builtins;
pub mod rag;
pub mod render;
pub mod net;
