//! Ant-colony foraging on a grid: ants follow and lay pheromone trails between food and home
//! cells, and the trails decay over time.
//!
//! - [`ant_sim_frame`]: coordinates, cells and the grid interface.
//! - [`ant_sim_frame_impl`]: packed cells and the row-major grid.
//! - [`ant_sim_frame_impl2`]: a grid stored in 8 by 8 folds.
//! - [`ant_sim`]: neighbour rings and the tick engine.
//! - [`ant_sim_ant`]: ants and how they choose their next cell.
//! - [`ant_sim_save`]: the saved form of a simulation and its validation.
//! - [`ant_sim_resize`]: carrying a board and its ants over to other dimensions.

pub mod ant_sim_frame;
pub mod ant_sim_frame_impl;
pub mod ant_sim_frame_impl2;
pub mod ant_sim;
pub mod ant_sim_ant;
pub mod ant_sim_save;
pub mod ant_sim_resize;
