//! Folder-grid browsing for a local media collection: listing, thumbnail
//! caching, shared directory watches and the bookkeeping of the
//! recommendation store.

pub mod cache;
pub mod database;
pub mod embedding_service;
pub mod explorer_state;
pub mod explorer_tabs;
pub mod explorer_types;
pub mod file_tree;
pub mod file_utils;
pub mod image_data;
pub mod model_downloader;
pub mod natural;
pub mod recommend;
pub mod stable_order;
pub mod text;
pub mod thumbnail_utils;
pub mod types;
pub mod viewer_state;
pub mod viewer_tabs;
pub mod watcher_utils;
