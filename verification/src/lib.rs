//! Process-local unique-identifier generators.
//!
//! Three independent generator families, each producing a fixed-width
//! unsigned integer identifier together with a canonical text encoding:
//!
//! - [`ulid::Ulid`]: 128 bits — a 48-bit millisecond timestamp over
//!   80 bits of randomness, shown as 26 characters of Crockford Base32.
//! - [`object_id::ObjectId`]: 96 bits — a 32-bit second timestamp, a 40-bit
//!   per-process random tag and a 24-bit counter, shown as 24 lowercase
//!   hex characters.
//! - [`snowflake_id::SnowflakeId`]: 64 bits — a 41-bit millisecond timestamp
//!   relative to a caller-supplied epoch, a 10-bit node id and a 12-bit
//!   sequence, shown in decimal.
//!
//! The integer is the identifier's true identity; the text is a
//! presentation form that preserves the integers' order.

mod clock;
pub mod digits;
mod entropy;
pub mod object_id;
pub mod snowflake_id;
pub mod ulid;
