//! Time tracking for freelancers: entries kept in monthly markdown tables,
//! validated against configured clients, checked for overlaps and aggregated
//! into reports.
pub mod calendar;
pub mod text;
pub mod datetime;
pub mod model;
pub mod error;
pub mod parser;
pub mod serializer;
pub mod overlap;
pub mod config;
pub mod time_utils;
pub mod validation;
pub mod date_range;
pub mod export;
pub mod cache;
pub mod storage;
pub mod store_steps;
pub mod report;
pub mod manage;
pub mod textarea;
pub mod entry_form;
pub mod files;
pub mod mcp;
pub mod tui;
pub mod reports_state;
pub mod timeline;
pub mod tools;
pub mod cli;
pub mod name_order;
pub mod colors;
pub mod laws;
pub mod report_laws;
