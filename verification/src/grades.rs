//! What every grading scale offers: canonical rendering (with its
//! mathematical statement), and the shared convention of an optional,
//! case-insensitive scale-marker letter in front of a parsed grade.

use vstd::prelude::*;

verus! {

/// `s` without its leading scale marker: the first character is dropped when
/// it is one of the marker's two cases, and kept otherwise.
pub open spec fn strip_marker(s: Seq<char>, small: char, capital: char) -> Seq<char> {
    if s.len() > 0 && (s[0] == small || s[0] == capital) {
        s.subrange(1, s.len() as int)
    } else {
        s
    }
}

/// A grade of any one scale, for holders that keep grades of several scales
/// together.
pub enum Grade {
    /// A Fontainebleau boulder-problem grade.
    Fontainebleau(crate::fontainebleau::Fontainebleau),
    /// A Hueco boulder-problem grade.
    Hueco(crate::hueco::Hueco),
}

/// A grade is a measure of difficulty that can be ordered and shown to the
/// user in a canonical form. Each scale states that form exactly through
/// `rendered`, and offers parsing of its own beside.
pub trait GradeTrait: PartialOrd + Sized {
    /// The canonical rendering of this grade, as a mathematical value.
    spec fn rendered(&self) -> Seq<char>;

    /// Renders this grade canonically.
    fn render(&self) -> (r: String)
        ensures
            r@ == self.rendered(),
    ;
}

} // verus!
