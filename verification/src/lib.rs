//! Verified core of a multichannel RTP/L24 network audio transport.

pub mod arrangement;
pub mod block;
pub mod cli;
pub mod device;
pub mod editor;
pub mod lines;
pub mod pacer;
pub mod params;
pub mod playout;
pub mod processor;
pub mod receiver;
pub mod ring;
pub mod rtp;
pub mod sample;
pub mod scene;
pub mod sender;
pub mod standalone;
pub mod state;
pub mod status;
pub mod stream;
pub mod text;
pub mod wide;
