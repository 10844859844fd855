//! Discrete part of a Taylor-Hood finite element solver for the steady
//! flow of a viscous fluid through a two-dimensional channel: problem
//! sizes, grid and element numbering, numbering of the unknowns, band
//! width of the system matrix, and the gathers that read nodal values.

pub mod flow;
pub mod grid;
pub mod band;
pub mod profile;
pub mod layout;
