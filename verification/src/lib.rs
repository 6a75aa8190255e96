//! A process CPU dashboard: samples of per-process CPU usage are grouped by
//! process name, ranked by cumulative usage and laid out as a table of bounded
//! height that is redrawn in place.
//!
//! One refresh runs through the modules in this order: [`sampler`] reads the
//! process table, [`aggregate`] groups its samples by name, [`rank`] orders
//! the groups and sums them up, and [`render`] lays the table out for the
//! height that [`terminal`] reports. [`dashboard`] puts these together, and
//! [`controller`] keeps the steps of the loop in order.

pub mod aggregate;
pub mod controller;
pub mod dashboard;
pub mod rank;
pub mod render;
pub mod sample;
pub mod sampler;
pub mod terminal;
pub mod text;
pub mod usage;
