//! Ascent records: who climbed, and when, at varying granularity. These are
//! thin value holders around the grade scales; no rule of the library reads
//! them.

use vstd::prelude::*;

verus! {

/// A record of an ascent.
#[derive(PartialEq, PartialOrd)]
pub struct Ascent {
    /// The party responsible for the ascent.
    pub party: Option<Party>,
    /// The temporal unit in which the ascent occurred.
    pub time_point: Option<TimePoint>,
}

/// Either one or more people.
#[derive(PartialEq, PartialOrd)]
pub enum Party {
    /// A single-person party.
    Person(Person),
    /// A multiple-person party.
    People(Vec<Person>),
}

/// A person, by name.
#[derive(PartialEq, PartialOrd)]
pub struct Person {
    /// The person's first name.
    pub first_name: String,
    /// The person's last name.
    pub last_name: String,
}

/// A point in time, at varying granularity.
#[derive(PartialEq, PartialOrd)]
pub enum TimePoint {
    /// Some year.
    Year(u16),
    /// Some season.
    Season(SeasonTimePoint),
    /// Some month.
    Month(MonthTimePoint),
    /// Some date.
    Date(Date),
}

/// A specific season of a specific year.
#[derive(PartialEq, PartialOrd)]
pub struct SeasonTimePoint {
    /// The year in which the season took place.
    pub year: u16,
    /// The season of the year.
    pub season: Season,
}

/// A specific month of a specific year.
#[derive(PartialEq, PartialOrd)]
pub struct MonthTimePoint {
    /// The year in which the month took place.
    pub year: u16,
    /// The month of the year.
    pub month: Month,
}

/// The four common seasons of the year.
#[derive(Clone, Copy, PartialEq, PartialOrd)]
pub enum Season {
    /// Spring.
    Spring,
    /// Summer.
    Summer,
    /// Fall, or autumn.
    Fall,
    /// Winter.
    Winter,
}

/// A month of the year, held as a plain value of its own.
#[derive(Clone, Copy, PartialEq, PartialOrd)]
pub enum Month {
    January,
    February,
    March,
    April,
    May,
    June,
    July,
    August,
    September,
    October,
    November,
    December,
}

/// A calendar date, held as plain year, month and day numbers.
#[derive(Clone, Copy, PartialEq, PartialOrd)]
pub struct Date {
    /// The calendar year.
    pub year: i32,
    /// The month of the year, counted from one.
    pub month: u8,
    /// The day of the month, counted from one.
    pub day: u8,
}

} // verus!
