//! A tag database for files: searching, filtering and ordering records,
//! tag-line rules, tag recommendation, and the planning that keeps the
//! database in step with the file system.
pub mod text;
pub mod flags;
pub mod sorting;
pub mod errors;
pub mod models;
pub mod paths;
pub mod filtering;
pub mod searcher;
pub mod update;
pub mod lists;
pub mod patterns;
pub mod recommender;
pub mod db;
pub mod tagging;
pub mod taggenator;
pub mod commands;
pub mod dates;
pub mod file_server;
pub mod page_order;
pub mod cmd;
pub mod gui;
