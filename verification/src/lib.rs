//! The core of a low-latency MJPEG streaming daemon: the frame transport format,
//! the shared frame cache, the client registry, the per-viewer streaming engine,
//! the order-preserving encode scheduler and the single-instance lock.

pub mod client;
pub mod config;
pub mod converters;
pub mod cpu_pool;
pub mod img;
pub mod lock;
pub mod stream;
pub mod text;
pub mod transport;
pub mod unix;
