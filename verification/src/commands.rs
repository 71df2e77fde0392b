//! One handler per command: each validates its arguments and either
//! answers directly or produces the message for the datastore actor.
pub mod command_registry;
pub mod echo;
pub mod get;
pub mod get_config;
pub mod ping;
pub mod set;
