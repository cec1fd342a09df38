//! The routing core of a bridge between Matrix rooms and IRC channels.

pub mod config;
pub mod irc_side;
pub mod journal;
pub mod keyed;
pub mod matrix_side;
pub mod numeral;
pub mod replies;
pub mod rooms;
pub mod session;
pub mod text;
