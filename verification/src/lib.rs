pub mod auth;
pub mod formatters;
pub mod models;
pub mod text;
pub mod utils;
pub mod workouts;
