//! A self-hosted search engine for local files: reading ZIM archives, the
//! tokenizers that turn file contents and metadata into search tokens, and
//! the decisions of crawling, searching and of the web client.
pub mod byte_reader;
pub mod cache;
pub mod client;
pub mod cluster;
pub mod commands;
pub mod config;
pub mod crawler;
pub mod dirent;
pub mod exif_text;
pub mod media_metadata;
pub mod metadata;
pub mod paths;
pub mod queries;
pub mod searcher;
pub mod text;
pub mod tokenizers;
pub mod tokens;
pub mod ui;
pub mod xmp;
pub mod zim_header;
pub mod zimfile;
pub mod zim_error;
