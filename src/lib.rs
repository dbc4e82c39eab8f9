pub mod position;
pub mod snake;
pub mod game;
pub mod direction;

pub use direction::next_direction;
pub use game::{Cell, GameStatus, OutOfBounds, RandomSource};
pub use position::point;
pub use snake::Snake;
