//! Time-indexed two-dimensional point series: the data model, the viewport
//! geometry and the playback state of a viewer, without the viewer.
//!
//! Every real number is held as a *rank* (see [`rank`]): a signed 64-bit
//! integer that orders as the number does. All of the library's decisions are
//! comparisons of ranks. Arithmetic on the numbers themselves is the caller's:
//! where a function needs an interpolated or a formatted value it asks for it
//! through a function argument and states what it does with every possible
//! answer.

pub mod rank;

pub mod reader;

pub mod timeseries;

pub mod recording;

pub mod data;

pub mod clipping;

pub mod plotting;

pub mod viewport;

pub mod state;

pub mod player;
