//! Verified cores of a handful of small programs: a proof-of-work block
//! chain, a grid snake game, a TCP port scanner and a fixed-frame chat
//! protocol. Input, output, threads, windows and floating point stay with
//! the programs that use this library.

pub mod text;
pub mod blockchain;
pub mod clock;
pub mod snake;
pub mod game;
pub mod draw;
pub mod sniffer;
pub mod chat;
