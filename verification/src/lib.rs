//! A sliding-tile picture puzzle: the grid of tiles, the moves that are
//! legal on it, the test for the solved arrangement and the random walk
//! that scrambles it, together with the title page's buttons and the rule
//! for the high score.

pub mod board;
pub mod grid;
pub mod random;
pub mod session;
pub mod text;
pub mod title_page;

pub use grid::{Cell, ConstructionError, GameEvent, Grid, TileRegion};
pub use session::{best_score, game_click};
pub use title_page::{Button, ButtonPos, ButtonState, Title, TitleClick, TitleEvent};
