//! A Connect Four engine: a board with move application, legality and
//! status queries, a wire encoding of the board as two 64-bit words, and
//! a Monte Carlo tree search that recommends a move under an iteration
//! budget. Around the engine stand the match bookkeeping types and the
//! chat-command parsing that the surrounding application uses.

pub mod board;
pub mod codec;
pub mod display;
pub mod mcts;
pub mod persistency;
pub mod protocol;
