//! The public side: who may ask, what is cached, how a text is cut up and relayed to the worker.

pub mod access;
pub mod admin;
pub mod api_keys;
pub mod cache;
pub mod chunking;
pub mod compress;
pub mod dashboard;
pub mod relay;
pub mod routes;
pub mod table;
