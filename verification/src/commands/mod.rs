pub mod capture;
pub mod history;
pub mod image;
pub mod window;
