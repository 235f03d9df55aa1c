//! Seam analysis for Graphify `graph.json` exports: ingest, seam ranking,
//! seam verdicts, call-path tracing, and the pure decisions behind the
//! desktop explorer's panels and gestures.

pub mod app;
pub mod call_path;
pub mod commands;
pub mod context_menu;
pub mod error;
pub mod graph;
pub mod graph_view;
pub mod ingest;
pub mod json;
pub mod keyboard;
pub mod load;
pub mod model;
pub mod panels;
pub mod paths;
pub mod seams;
pub mod settings;
pub mod startup;
pub mod text;
pub mod trace;
pub mod verdict;
