//! A Xiangqi (Chinese chess) engine.
//!
//! [`board`] holds the position: squares and rosters, the movement rules of
//! the seven kinds of piece, the move generator, move application, the text
//! form of positions and the value of a position as it stands.
//!
//! [`engine`] holds the scores and the search: an alpha-beta search that is
//! deepened step by step and gives the value of the game tree when both sides
//! play their best, together with a move that reaches it.
//!
//! [`args`] takes one argument of the command line apart.
#![allow(non_snake_case)]
#![allow(non_camel_case_types)]

pub mod args;
pub mod board;
pub mod engine;
