pub mod text;
pub mod pattern;
pub mod matcher;
pub mod store;
pub mod reconcile;
pub mod json;
pub mod http;
pub mod abs;
pub mod audible;
pub mod listenarr;
pub mod opf;
pub mod web;
pub mod cycle;
pub mod settings;
