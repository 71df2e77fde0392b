//! A small in-memory key-value server core speaking a subset of the
//! RESP wire format: a verified codec (parser and emitter), command
//! handlers, a keyspace with millisecond expiry, and the actor step
//! that serializes all mutations. Reading sockets, the task runtime
//! and the command line stay outside; everything that decides
//! anything is here, under contract.
mod assoc;

pub mod commands;
pub mod config;
pub mod data_management;
pub mod errors;
pub mod event_loop;
pub mod resp;
