//! Sensor normalisation and graded text rendering for a terminal hardware
//! dashboard.
//!
//! The library turns sampled values into text.  It does not sample and it
//! does not print: the caller hands it plain values and gets finished lines
//! back.
//!
//! - [`units`] writes sizes in human units and turns ratios into
//!   percentages; [`metric`] holds a value made ready for display.
//! - [`visual`] maps a percentage onto a glyph and a colour and draws
//!   capacity bars.
//! - [`sensors`] gathers the readings of one device under one canonical
//!   name; [`sensor_laws`] says what holds of every classification.
//! - [`table`] lines up the columns of delimited rows.
//! - [`frame`], [`listing`] and [`composer`] compose the frame of one
//!   refresh tick; [`names`] and [`summary`] write the inventory of the
//!   hardware.
//! - [`driver`] says which step of the refresh loop comes next, and
//!   [`rating`] reads the rated frequency of a core.
//! - [`text`] holds the character-level helpers the others are written in.

pub mod composer;
pub mod driver;
pub mod frame;
pub mod listing;
pub mod metric;
pub mod names;
pub mod rating;
pub mod sensor_laws;
pub mod sensors;
pub mod summary;
pub mod table;
pub mod text;
pub mod units;
pub mod visual;
