//! Route records: a named climb, its description, its grade, and its
//! notable ascents. Thin value holders around the grade scales.

use vstd::prelude::*;

use crate::ascent::Ascent;
use crate::grades::Grade;

verus! {

/// A particular route.
pub struct Route {
    /// The route's name.
    pub name: Option<RouteName>,
    /// The route's description.
    pub description: Option<String>,
    /// The route's difficulty.
    pub grade: Option<Grade>,
    /// Any of the route's notable ascents.
    pub notable_ascents: Option<Vec<NotableAscent>>,
}

/// A route's name: some routes are known by one name, some by several.
pub enum RouteName {
    /// For a route with one name.
    Singular(String),
    /// For a route with more than one name.
    Multiple(Vec<String>),
}

/// An ascent worth noting.
pub struct NotableAscent {
    /// The ascent itself.
    pub ascent: Ascent,
    /// Why the ascent is notable.
    pub reason: NotableAscentReason,
}

/// Why an ascent may be notable.
pub enum NotableAscentReason {
    /// It was the first.
    First,
}

} // verus!
