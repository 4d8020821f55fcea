//! Client side of the Redis wire protocol: typed commands are rendered as
//! frames, reply frames are parsed from a growing byte buffer, and a
//! multiplexer pairs every reply with the caller that is waiting for it, in
//! the order in which the requests were written.
pub mod codec;
pub mod codec_redis;
pub mod errors;
pub mod text;
pub mod cmd;
pub mod client;
pub mod connector;
pub mod simple;
