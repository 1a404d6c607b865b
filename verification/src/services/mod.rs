pub mod auto_capture;
pub mod capture_pipeline;
pub mod capture_store;
pub mod game_window;
pub mod input;
pub mod input_win;
pub mod persistence;
pub mod screenshot;
pub mod shared;
pub mod stitcher;
pub mod uac;
pub mod window_state;
