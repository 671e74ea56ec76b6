//! What holds of the library as a whole.
//!
//! Each public proof function states one law over the spec functions that the
//! contracts of the executable functions use.

pub mod asked;
pub mod cut;
pub mod detect;
pub mod jobs;
pub mod keep;
pub mod names;
pub mod notes;
pub mod paths;
pub mod pieces;
pub mod reading;
pub mod scan;
pub mod searching;
pub mod shown;
pub mod steps;
pub mod tasks;
pub mod times;
pub mod told;
pub mod typed;
pub mod window;
