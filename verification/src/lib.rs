//! Core engine of an event-driven neural substrate: regions of layers of
//! neurons, each neuron binning its input into a bounded set of slots.
//!
//! Real-valued quantities (decay factors, anchors, bin widths, thresholds)
//! are held in fixed point, as integer counts of [`fixed::UNIT`]-ths.

pub mod bus;
pub mod fixed;
pub mod ids;
pub mod index_map;
pub mod layer;
pub mod mesh;
pub mod neuron;
pub mod pal;
pub mod policy;
pub mod region;
pub mod region_model;
pub mod rng;
pub mod slot_config;
pub mod slot_engine;
pub mod spatial_metrics;
pub mod tract;
pub mod window;
