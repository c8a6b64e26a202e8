//! Connection admission for a login gateway: typed settings built from
//! layers, IP access lists, per-address connection rate limiting, and the
//! gateway that combines them into one decision per incoming connection.

pub mod access;
pub mod decision;
pub mod gateway;
pub mod ip_range;
pub mod layers;
pub mod login;
pub mod rate_limit;
pub mod scripts;
pub mod server_timer;
pub mod settings;
pub mod socket;
pub mod text;
