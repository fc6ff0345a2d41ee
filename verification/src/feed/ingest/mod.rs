//! How an emission gets into the board.

pub mod grouped;
pub mod grouped_board;
pub mod index;
pub mod reviews_board;
pub mod role_routed;
pub mod roles;
pub mod routing;
pub mod sync;
