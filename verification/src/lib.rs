//! Typage: routing, text and scaffold logic of a Typst-based static site generator.
pub mod cache;
pub mod config;
pub mod dates;
pub mod deploy;
pub mod deps;
pub mod discover;
pub mod escape;
pub mod feed;
pub mod generated;
pub mod http;
pub mod laws;
pub mod links;
pub mod listing;
pub mod markup;
pub mod model;
pub mod paths;
pub mod permalink;
pub mod policy;
pub mod preprocess;
pub mod routes;
pub mod schema;
pub mod script;
pub mod search;
pub mod search_index;
pub mod serve;
pub mod shortcode;
pub mod site_files;
pub mod table;
pub mod term;
pub mod theme;
pub mod theme_report;
pub mod text;
pub mod typst;
pub mod unicode;
pub mod url;
pub mod util;
pub mod watch;
pub mod wrappers;
