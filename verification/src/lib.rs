//! Hook handling for the Dredd HTTP API testing framework.
//!
//! Dredd talks to one integration server ([`IntegrationServer`]), which starts
//! the compiled hook files and relays each of Dredd's messages through them. Each
//! hook file runs a [`HooksServer`], which holds the hooks registered for the
//! stages of a Dredd run and answers Dredd's messages by running them.
//! Messages travel as lines of JSON ([`codec`]).

pub mod answers;
pub mod cli;
pub mod codec;
pub mod event;
pub mod fold;
pub mod hooks;
pub mod integration;
pub mod json;
pub mod named;
pub mod text;

pub use event::EventType;
pub use hooks::{DispatchError, HookMessage, HooksServer, MultiTransaction, SingleTransaction};
pub use integration::IntegrationServer;
pub use json::Transaction;
