//! ClanTrail core: the data model of clans, burial groups, graves, members,
//! photos and kinship edges, an in-memory relational store with the queries
//! the application runs on it, ancestral-day reminders, and the request
//! checks of the HTTP layer.

pub mod error;
pub mod text;
pub mod models;
pub mod sort;
pub mod store;
pub mod db;
pub mod clan;
pub mod grave;
pub mod member;
pub mod image;
pub mod graph;
pub mod search;
pub mod calendar;
pub mod reminders;
pub mod upload;
pub mod service;
pub mod backup;
pub mod seed;
pub mod laws;
