//! The private side: which accounts there are, what is asked of the model, how its answer is
//! streamed.

pub mod accounts;
pub mod requests;
pub mod settings;
pub mod status;
pub mod streams;
