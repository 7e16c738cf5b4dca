//! Game logic of Bioengineer: a voxel map of cells, the fluid simulation that runs on it, the
//! rules that decide which transformations the player may apply to the cells, and the state of
//! cell selection in the user interface.
pub mod common;
pub mod scene;
pub mod world;
pub mod screen;
