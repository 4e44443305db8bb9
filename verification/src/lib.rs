//! Build orchestration and artifact addressing for a static-site generator.

pub mod asset_hash;
pub mod config;
pub mod content;
pub mod date;
pub mod error;
pub mod orchestrator;
pub mod paths;
pub mod redirect;
pub mod resolver;
pub mod rss;
pub mod sitemap;
pub mod sort;
pub mod static_sync;
pub mod syntax;
pub mod template;
pub mod text;
