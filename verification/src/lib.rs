//! A visualizer for Git histories.
//!
//! The library condenses the history of a repository to a graph, writes the graph as a DOT file,
//! and decides what its web server does for each request. Reading the repository, running programs
//! and talking to the network is left to the program around it.

pub mod text;
pub mod search;
pub mod lines;
pub mod number;
pub mod escape;
pub mod percent;
pub mod names;
pub mod filter;
pub mod theme;
pub mod commit_node;
pub mod charset;
pub mod utils;
pub mod history;
pub mod traverse;
pub mod snapshot;
pub mod nodes;
pub mod edge;
pub mod condensed;
pub mod walk_laws;
pub mod graph;
pub mod graph_laws;
pub mod dot_laws;
pub mod template;
pub mod graphviz;
pub mod palette;
pub mod pages;
pub mod markdown;
pub mod html_page;
pub mod cards;
pub mod query;
pub mod http;
pub mod prompt;
pub mod job;
pub mod range;
pub mod summary;
pub mod diff_page;
pub mod page_laws;
pub mod server;
pub mod server_laws;
pub mod ask_laws;
pub mod config;
