//! Windows that open over the main window.

pub mod setting_window;
