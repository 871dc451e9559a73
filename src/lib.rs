//! Marshalling, request preparation, streaming delivery and usage collection
//! for a bridge between a dynamically typed host and a typed function runtime.
use vstd::prelude::*;

pub mod assoc;
pub mod value;
pub mod codec;
pub mod collector;
pub mod request;
pub mod stream;
pub mod schema;
