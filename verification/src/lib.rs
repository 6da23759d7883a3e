//! The decision-making core of a text-compression gateway and its worker.

pub mod clock;
pub mod digest;
pub mod error;
pub mod gateway;
pub mod json;
pub mod number;
pub mod offsets;
pub mod order;
pub mod sse;
pub mod text;
pub mod worker;
