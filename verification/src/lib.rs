//! Verified core of a PWA container: the text, encoding, path, cookie,
//! proxy and cache logic behind its commands and protocol handlers.

pub mod apps;
pub mod b64;
pub mod cache;
pub mod cookie_store;
pub mod cookies;
pub mod eav;
pub mod files;
pub mod host;
pub mod mime;
pub mod num;
pub mod paths;
pub mod protocols;
pub mod proxy;
pub mod range;
pub mod relays;
pub mod resource;
pub mod server;
pub mod strmap;
pub mod text;
pub mod urls;
pub mod usage;
pub mod web;
