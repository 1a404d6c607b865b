pub mod scroll_mode;
pub mod session;
pub mod setting;
pub mod window_state;
