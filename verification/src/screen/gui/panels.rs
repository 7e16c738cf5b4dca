pub mod cell_info;
pub mod draw_available_transformations;
pub mod top_bar;
pub mod task_queue;
