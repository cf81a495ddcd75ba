pub mod text;
pub mod lists;
pub mod json;
pub mod fields;
pub mod auth;
pub mod people;
pub mod plans;
pub mod access;
pub mod http;
pub mod admin_api;
pub mod planner_api;
pub mod persistence;
