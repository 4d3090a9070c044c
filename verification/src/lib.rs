//! Verified core of a bounded Parquet explorer.

pub mod accumulate;
pub mod aggregate;
pub mod batch;
pub mod cache;
pub mod cells;
pub mod chart;
pub mod clipboard;
pub mod collector;
pub mod copying;
pub mod counting;
pub mod execution;
pub mod explorer;
pub mod export;
pub mod filter;
pub mod grid_pages;
pub mod groups;
pub mod inspector;
pub mod labels;
pub mod layouts;
pub mod logical;
pub mod messages;
pub mod metadata;
pub mod navigation;
pub mod nested;
pub mod order;
pub mod output;
pub mod page;
pub mod panels;
pub mod paths;
pub mod planner;
pub mod prepared;
pub mod profile;
pub mod progress;
pub mod projection;
pub mod queries;
pub mod reads;
pub mod requests;
pub mod results;
pub mod runtime;
pub mod scalar;
pub mod schema;
pub mod seqs;
pub mod session;
pub mod session_laws;
pub mod sort;
pub mod sorted;
pub mod source;
pub mod spacing;
pub mod sql;
pub mod sql_reader;
pub mod sql_tree;
pub mod sql_words;
pub mod state;
pub mod table;
pub mod text;
pub mod times;
pub mod value;
pub mod window;
