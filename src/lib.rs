//! A log-shipping pipeline's core: byte chunks from a pipe become complete
//! lines, lines are parsed by one of a fixed set of grammars, and the HTTP
//! sink decides when records go out.
pub mod scan;
pub mod number;
pub mod text;
pub mod reassembly;
pub mod pattern;
pub mod records;
pub mod ffmpeg;
pub mod gigatools;
pub mod civil;
pub mod tsp;
pub mod dispatch;
pub mod sink;
pub mod replay;
