//! The rules behind a terminal dashboard for self-hosted CI runners.

pub mod app;
pub mod config;
pub mod history;
pub mod jobs;
pub mod json;
pub mod keyed;
pub mod model;
pub mod ordering;
pub mod resource;
pub mod resource_docker;
pub mod resource_native;
pub mod stats_math;
pub mod text;
pub mod theme;
pub mod ui;
pub mod vercel;
