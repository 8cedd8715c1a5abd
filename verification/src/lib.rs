pub mod botapi;
pub mod bytesutil;
pub mod canonical;
pub mod chunks;
pub mod content;
pub mod errors;
pub mod fs;
pub mod scheduler;
