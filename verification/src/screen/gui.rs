pub mod format_units;
pub mod gui_actions;
pub mod panels;
