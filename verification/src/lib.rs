pub mod text;
pub mod text_split;
pub mod model;
pub mod sorting;
pub mod urls;
pub mod paths;
pub mod storage;
pub mod capture;
pub mod fetch;
pub mod config;
pub mod theme;
pub mod catalog;
pub mod validate;
pub mod notes;
pub mod index;
pub mod tui;
pub mod listing;
pub mod enrich;
pub mod filtering;
pub mod dedup;
pub mod keys;
pub mod session;
