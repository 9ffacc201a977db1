//! Banshee: the verified core of a highlight-clip video editor.
pub mod ai;
pub mod commands;
pub mod domain;
pub mod filters;
pub mod logs;
pub mod media;
pub mod render;
pub mod storage;
pub mod text;
pub mod timeline;
pub mod upscaler;
