//! Wispet's lookup engine: the MDict (`.mdx`/`.mdd`) container parser, the
//! result shaping of the online providers, and the configuration rules.

pub mod bytes;
pub mod cipher;
pub mod clipboard;
pub mod compress;
pub mod config;
pub mod container;
pub mod dict;
pub mod header;
pub mod html;
pub mod index;
pub mod keys;
pub mod plan;
pub mod provider;
pub mod resource;
pub mod shortcut;
pub mod sort;
pub mod startup;
pub mod text;
pub mod url;
