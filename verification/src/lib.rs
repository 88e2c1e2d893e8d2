//! Chat backend core: connection registry, subscription protocol, fan-out
//! planning, cursor-based message pagination, and invite allocation, each
//! specified and verified over an explicit model of the durable store.

pub mod auth;
pub mod dms;
pub mod errors;
pub mod fanout;
pub mod invites;
pub mod messages;
pub mod models;
pub mod pagination;
pub mod protocol;
pub mod registry;
pub mod servers;
pub mod shims;
pub mod table;
pub mod text;
pub mod users;
