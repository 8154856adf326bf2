pub mod app;
pub mod guide;
pub mod text;
pub mod search;
pub mod sort;
pub mod schedule;
pub mod keys;
pub mod ui;
pub mod xmltv;
