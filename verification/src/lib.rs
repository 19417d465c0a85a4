//! Core logic of an IQ power-sweep viewer.
//!
//! A power sweep measures the complex response of superconducting resonators
//! at a grid of frequency steps and attenuation settings. The viewer lets a
//! user narrow the displayed frequency and attenuation windows, hover over
//! plotted IQ points, and click to record a bias point per resonator.
//!
//! This crate holds the parts of that viewer that are plain data logic:
//! an in-memory byte reader with seek semantics, window filtering of sample
//! indices, the click-through session state that records bias choices, and
//! the parsing of sweep-archive entry names. Rendering, file I/O and the
//! floating-point gain arithmetic live outside the library.

pub mod archive;
pub mod filter;
pub mod reader;
pub mod session;
