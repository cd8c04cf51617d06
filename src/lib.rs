//! A tiling layout engine: a tree of containers and windows, string tags that
//! address its elements, eased property animations, and a job protocol.

pub mod animation;
pub mod arrangement;
pub mod config;
pub mod dump;
pub mod element;
pub mod frame;
pub mod geometry;
pub mod job;
pub mod policy;
pub mod tag;
pub mod text;
pub mod transition;
pub mod tree;
