//! Climbing-route difficulty grades.
//!
//! Route difficulty is expressed through several grading scales. Each scale
//! here offers the same three pure operations — construction under the
//! scale's validity rules, parsing from a human-entered string, and canonical
//! rendering — together with a comparison that captures the scale's
//! perceived-difficulty order. A slash composite renders an uncertain range
//! between two grades of the same scale.

pub mod ascent;
pub mod boulder;
pub mod fontainebleau;
pub mod grades;
pub mod hueco;
pub mod numerals;
pub mod route;
pub mod slash;
