//! SoundPush core: the engine's rules and bookkeeping, verified.
//!
//! Audio processing on floating-point samples, file and network I/O and the
//! asynchronous engine loop live outside this crate; everything here is plain
//! values in, plain values out.

pub mod addr;
pub mod audit;
pub mod control;
pub mod crash;
pub mod devices;
pub mod engine;
pub mod error;
pub mod ffi;
pub mod state;
pub mod text;
pub mod denoise;
pub mod media;
pub mod net;
pub mod nettest;
pub mod pairing;
pub mod pairing_limit;
pub mod platform;
pub mod health;
pub mod logging;
pub mod reconnect;
pub mod refused;
pub mod resume;
pub mod routes;
pub mod settings;
mod rng;
