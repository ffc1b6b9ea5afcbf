//! The core of a desktop task switcher.
//!
//! The library decides; it never asks the operating system itself. Its caller reports
//! the top-level windows, the process table and the icons it has drawn, and gets back
//! the list of running applications: one entry for each process, under the longest of
//! its window titles, without the shell's own surfaces, ordered by title. The caller
//! also reports window events, and is told when to notify the front end.
//!
//! - [`window`]: which windows count, and which one stands for its process
//! - [`apps`]: the process table, the deny-list and the list of applications
//! - [`order`]: ordering by title without regard to case
//! - [`icon`]: from drawn pixels to an inline PNG image
//! - [`watcher`]: starting the watcher once, and one notification per quiet period
//! - [`text`]: substring search and the lexicographic order on characters

pub mod apps;
pub mod icon;
pub mod order;
pub mod text;
pub mod watcher;
pub mod window;

pub use apps::get_running_apps;
pub use icon::encode_icon;
pub use order::ProcessInfo;
pub use watcher::{start_watching, Watcher};
pub use window::enumerate_windows;
