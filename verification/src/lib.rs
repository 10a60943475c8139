//! Calendar heatmap of commit activity for one year: per-day commit counts,
//! Sunday-aligned week rows, month labels and separators, and intensity
//! buckets, assembled into a grid that a renderer can paint.

pub mod calendar;
pub mod counts;
pub mod day;
pub mod grid;
pub mod intensity;
pub mod labels;
pub mod render;
pub mod text;
