pub mod config;
pub mod description;
pub mod dispatcher;
pub mod notifications;
pub mod polling;
pub mod retry;
pub mod table;
pub mod text;
pub mod ui;
