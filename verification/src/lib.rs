//! Core of a browser-based interactive chart viewer for time-series
//! datasets (sea-level measurements).
//!
//! The heart of the crate is the axis engine: the "nice numbers"
//! tick-spacing algorithm (`axes`), the tick and frame geometry
//! (`mesh`), the camera and its viewport/world coordinate mapping
//! (`camera`), and nearest-point hit-testing for the crosshair
//! (`points`).  Around it sit the dataset model (`response`, `date`),
//! the dataset file format (`tsv`), the backend's routes (`server`),
//! and the front end's retained state (`store`, `session`).
//!
//! Everything is computed exactly: data values are integers in
//! thousandths of a unit, tick spacings are decimals (`dec::Dec`), and
//! camera state is rational (`camera::Frac`), so every function
//! carries a precise contract.

pub mod axes;
pub mod camera;
pub mod date;
pub mod dec;
pub mod mesh;
pub mod points;
pub mod response;
pub mod server;
pub mod session;
pub mod store;
pub mod tsv;
