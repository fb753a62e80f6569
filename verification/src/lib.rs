//! Core logic of the x-hub desktop assistant: the recurring-todo rule engine,
//! the calendar arithmetic it rests on, and the pure decisions behind the
//! todo store, the configuration merge, the skill bundle, the service host
//! and the platform request specs.

pub mod calendar;
pub mod local_time;
pub mod text;
pub mod api_spec;
pub mod config;
pub mod floating_ball;
pub mod skills;
pub mod autostart;
pub mod models;
pub mod todo_recurrence;
pub mod todo_store;
pub mod recurrence_laws;
pub mod service;
pub mod placement;
