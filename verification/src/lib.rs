pub mod rowid;
pub mod text;
pub mod paths;
pub mod archive;
pub mod http;
pub mod compaction;
pub mod wrap;
pub mod index;
pub mod tiff;
pub mod upload;
pub mod search;
pub mod results;
pub mod matching;
pub mod params;
pub mod update;
pub mod tree;
pub mod ingest;
pub mod documents;
pub mod serve;
pub mod recent;
pub mod stats;
pub mod formatter;
pub mod queue;
pub mod db;
pub mod session;
pub mod db_search;
pub mod content;
pub mod indexing;
pub mod search_source;
pub mod file_view;
pub mod order;
pub mod inbox;
pub mod alerts;
pub mod web;
