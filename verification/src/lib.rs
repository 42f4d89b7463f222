pub mod board;
pub mod bot;
pub mod game;
