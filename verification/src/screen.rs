pub mod drawer_trait;
pub mod drawing_state;
pub mod gui;
pub mod main_scene_input;
pub mod main_scene_input_source;
