//! A remote speaker: task bookkeeping, clock synchronisation, audio mixing and
//! sample storage, as verified decisions on plain values.

pub mod android_lib_args;
pub mod android_lib_embed;
pub mod android_lib_func;
pub mod android_log;
pub mod android_opts;
pub mod aud;
pub mod audio_cli;
pub mod clock;
pub mod conf;
pub mod dash;
pub mod launcher;
pub mod order;
pub mod rmt;
pub mod rpc;
pub mod sample;
pub mod task;
pub mod text;
pub mod util;
