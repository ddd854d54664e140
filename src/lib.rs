pub mod card;
pub mod deck;
pub mod moves;
pub mod history;
pub mod game;
pub mod logger;
