//! Fontainebleau boulder-problem grades.
//!
//! A grade is a level on an open-ended scale. Above level five the grades
//! are divided into three steps A, B and C, each slightly harder than the
//! one before; below that threshold no division exists. At any level the
//! grade may carry a trailing "+", refining the difficulty towards the next
//! step. The canonical rendering is the level, the capital division letter
//! where one exists, then the "+" — without a scale-marker letter in front;
//! parsing accepts an optional leading "f" or "F" marker and either case of
//! the division letter.

use vstd::prelude::*;
use vstd::string::StrSliceExecFns;
use vstd::string::StringExecFns;
use core::cmp::Ordering;

use crate::grades::GradeTrait;
use crate::grades::strip_marker;
use crate::numerals::all_digits;
use crate::numerals::dec_seq;
use crate::numerals::dec_val;
use crate::numerals::digit_run;
use crate::numerals::digits_string;
use crate::numerals::is_digit;
use crate::numerals::lemma_dec_seq;
use crate::numerals::lemma_lower_char;
use crate::numerals::lower_char;
use crate::numerals::to_lower;

verus! {

/// A subdivision of a grading level: `A` below `B` below `C`. Divisions
/// exist only at levels greater than five.
#[derive(Clone, Copy, Debug, PartialEq, Eq)]
pub enum Division {
    /// Subdivision A, easier than B.
    A,
    /// Subdivision B, harder than A but easier than C.
    B,
    /// Subdivision C, harder than B.
    C,
}

/// A Fontainebleau grade. A level greater than five always carries a
/// division, a level below six never does; the constructor enforces this
/// rule, and a value breaking it is not representable.
#[derive(Debug, PartialEq)]
pub struct Fontainebleau {
    level: u8,
    division: Option<Division>,
    plus: bool,
}

/// The fields of a [`Fontainebleau`] grade, as contracts speak of them.
pub struct FontainebleauView {
    pub level: u8,
    pub division: Option<Division>,
    pub plus: bool,
}

impl View for Fontainebleau {
    type V = FontainebleauView;

    closed spec fn view(&self) -> FontainebleauView {
        FontainebleauView { level: self.level, division: self.division, plus: self.plus }
    }
}

/// The rule construction enforces: divisions exist exactly at the levels
/// greater than five.
pub open spec fn fontainebleau_wf(v: FontainebleauView) -> bool {
    (v.level >= 6) <==> (v.division is Some)
}

impl Fontainebleau {
    #[verifier::type_invariant]
    spec fn wf(self) -> bool {
        fontainebleau_wf(self@)
    }
}

/// Failures of grade construction.
#[derive(Clone, Copy, Debug, PartialEq, Eq)]
pub enum FontainebleauError {
    /// The level is lower than six yet a division was given.
    LevelTooLowWithDivision,
    /// The level is higher than five yet no division was given.
    LevelTooHighWithoutDivision,
}

/// Failures when reading a Fontainebleau grade from a string.
#[derive(Clone, Copy, Debug, PartialEq, Eq)]
pub enum FontainebleauParseError {
    /// The string has the shape of a grade, but its fields break the
    /// construction rule.
    BadGrade(FontainebleauError),
    /// The string does not have the shape of a Fontainebleau grade.
    InvalidStr,
}

/// Which error, if any, constructing a grade from these fields raises.
pub open spec fn construction_error(level: u8, division: Option<Division>) -> Option<
    FontainebleauError,
> {
    if level < 6 && division is Some {
        Some(FontainebleauError::LevelTooLowWithDivision)
    } else if level >= 6 && division is None {
        Some(FontainebleauError::LevelTooHighWithoutDivision)
    } else {
        None
    }
}

impl Fontainebleau {
    /// Creates a new Fontainebleau grade. Every level greater than five must
    /// have a division, and every level less than six must not.
    pub fn new(level: u8, division: Option<Division>, plus: bool) -> (r: Result<
        Fontainebleau,
        FontainebleauError,
    >)
        ensures
            construction_error(level, division) matches Some(e) ==> r == Err::<
                Fontainebleau,
                FontainebleauError,
            >(e),
            construction_error(level, division) is None ==> (r matches Ok(g) && g@
                == (FontainebleauView { level, division, plus })),
    {
        if level < 6 && division.is_some() {
            return Err(FontainebleauError::LevelTooLowWithDivision);
        }
        if level > 5 && division.is_none() {
            return Err(FontainebleauError::LevelTooHighWithoutDivision);
        }
        Ok(Fontainebleau { level, division, plus })
    }
}

/// The division a character names, in either case; `None` for every other
/// character.
pub open spec fn division_of_char(c: char) -> Option<Division> {
    if c == 'a' || c == 'A' {
        Some(Division::A)
    } else if c == 'b' || c == 'B' {
        Some(Division::B)
    } else if c == 'c' || c == 'C' {
        Some(Division::C)
    } else {
        None
    }
}

/// The canonical rendering of a division: its capital letter, or nothing.
pub open spec fn division_rendered(d: Option<Division>) -> Seq<char> {
    match d {
        Some(Division::A) => seq!['A'],
        Some(Division::B) => seq!['B'],
        Some(Division::C) => seq!['C'],
        None => Seq::<char>::empty(),
    }
}

/// The canonical rendering of a Fontainebleau grade: the level in decimal,
/// the division letter where one exists, then "+" where the plus is set. No
/// scale-marker letter is written in front.
pub open spec fn fontainebleau_rendered(v: FontainebleauView) -> Seq<char> {
    dec_seq(v.level as nat) + division_rendered(v.division) + (if v.plus {
        seq!['+']
    } else {
        Seq::<char>::empty()
    })
}

/// What parsing a string as a Fontainebleau grade yields. After an optional
/// leading "f" or "F" marker the string must hold one or more digits — a
/// level no larger than a level can be — then an optional division letter in
/// either case, then an optional "+"; any other shape is invalid. A string
/// of the right shape whose fields break the construction rule is a
/// [`FontainebleauParseError::BadGrade`].
pub open spec fn fontainebleau_parse(s: Seq<char>) -> Result<
    FontainebleauView,
    FontainebleauParseError,
> {
    let t = strip_marker(s, 'f', 'F');
    let plus = t.len() > 0 && t.last() == '+';
    let u = if plus {
        t.drop_last()
    } else {
        t
    };
    let division = if u.len() > 0 {
        division_of_char(u.last())
    } else {
        None
    };
    let digits = if division is Some {
        u.drop_last()
    } else {
        u
    };
    if digits.len() > 0 && all_digits(digits) && dec_val(digits) <= u8::MAX {
        let level = dec_val(digits) as u8;
        match construction_error(level, division) {
            Some(e) => Err(FontainebleauParseError::BadGrade(e)),
            None => Ok(FontainebleauView { level, division, plus }),
        }
    } else {
        Err(FontainebleauParseError::InvalidStr)
    }
}

/// The division named by `c`, exactly as [`division_of_char`] says.
fn division_letter(c: char) -> (r: Option<Division>)
    ensures
        r == division_of_char(c),
{
    if c == 'a' || c == 'A' {
        Some(Division::A)
    } else if c == 'b' || c == 'B' {
        Some(Division::B)
    } else if c == 'c' || c == 'C' {
        Some(Division::C)
    } else {
        None
    }
}

impl Fontainebleau {
    /// Reads a Fontainebleau grade from a string, exactly as
    /// [`fontainebleau_parse`] says; the field combination itself is left to
    /// [`Fontainebleau::new`].
    pub fn parse(s: &str) -> (r: Result<Fontainebleau, FontainebleauParseError>)
        ensures
            r matches Ok(g) ==> fontainebleau_parse(s@) == Ok::<
                FontainebleauView,
                FontainebleauParseError,
            >(g@),
            r matches Err(e) ==> fontainebleau_parse(s@) == Err::<
                FontainebleauView,
                FontainebleauParseError,
            >(e),
    {
        let n = s.unicode_len();
        let mut i: usize = 0;
        if n > 0 {
            let c0 = s.get_char(0);
            if c0 == 'f' || c0 == 'F' {
                i = 1;
            }
        }
        let ghost t = strip_marker(s@, 'f', 'F');
        proof {
            assert(t =~= s@.subrange(i as int, n as int));
        }
        let (end, val) = digit_run(s, i);
        let ghost run = s@.subrange(i as int, end as int);
        if end == i {
            proof {
                lemma_rest_invalid(s@, i as nat, end as nat);
            }
            return Err(FontainebleauParseError::InvalidStr);
        }
        if val > u8::MAX as u32 {
            proof {
                lemma_rest_invalid(s@, i as nat, end as nat);
            }
            return Err(FontainebleauParseError::InvalidStr);
        }
        let level = val as u8;
        let division: Option<Division>;
        let plus: bool;
        if end == n {
            division = None;
            plus = false;
            proof {
                assert(run =~= t);
                assert(is_digit(run[end - i - 1]));
            }
        } else if end + 1 == n {
            let c = s.get_char(end);
            if c == '+' {
                division = None;
                plus = true;
                proof {
                    assert(t.last() == c);
                    assert(t.drop_last() =~= run);
                    assert(is_digit(run[end - i - 1]));
                }
            } else {
                match division_letter(c) {
                    Some(d) => {
                        division = Some(d);
                        plus = false;
                        proof {
                            assert(t.last() == c);
                            assert(t.drop_last() =~= run);
                            assert(is_digit(run[end - i - 1]));
                        }
                    },
                    None => {
                        proof {
                            lemma_rest_invalid(s@, i as nat, end as nat);
                        }
                        return Err(FontainebleauParseError::InvalidStr);
                    },
                }
            }
        } else if end + 2 == n {
            let c1 = s.get_char(end);
            let c2 = s.get_char(end + 1);
            match division_letter(c1) {
                Some(d) if c2 == '+' => {
                    division = Some(d);
                    plus = true;
                    proof {
                        assert(t.last() == c2);
                        assert(t.drop_last().last() == c1);
                        assert(t.drop_last().drop_last() =~= run);
                    }
                },
                _ => {
                    proof {
                        lemma_rest_invalid(s@, i as nat, end as nat);
                    }
                    return Err(FontainebleauParseError::InvalidStr);
                },
            }
        } else {
            proof {
                lemma_rest_invalid(s@, i as nat, end as nat);
            }
            return Err(FontainebleauParseError::InvalidStr);
        }
        match Fontainebleau::new(level, division, plus) {
            Ok(g) => Ok(g),
            Err(e) => Err(FontainebleauParseError::BadGrade(e)),
        }
    }
}

/// When the digit run that starts where the marker ends is empty, overlong,
/// or stops short of the places a division letter and a plus may stand, no
/// shape of the remainder can make the string parse.
proof fn lemma_rest_invalid(s: Seq<char>, i: nat, end: nat)
    requires
        i <= end <= s.len(),
        strip_marker(s, 'f', 'F') =~= s.subrange(i as int, s.len() as int),
        all_digits(s.subrange(i as int, end as int)),
        end < s.len() ==> !is_digit(s[end as int]),
        end == i || dec_val(s.subrange(i as int, end as int)) > u8::MAX || (end < s.len() && !(end
            + 1 == s.len() && (s[end as int] == '+' || division_of_char(s[end as int]) is Some))
            && !(end + 2 == s.len() && division_of_char(s[end as int]) is Some && s[end as int
            + 1] == '+')),
    ensures
        fontainebleau_parse(s) == Err::<FontainebleauView, FontainebleauParseError>(
            FontainebleauParseError::InvalidStr,
        ),
{
    let n = s.len() as int;
    let t = strip_marker(s, 'f', 'F');
    let run = s.subrange(i as int, end as int);
    let plus = t.len() > 0 && t.last() == '+';
    let u = if plus {
        t.drop_last()
    } else {
        t
    };
    let division = if u.len() > 0 {
        division_of_char(u.last())
    } else {
        None::<Division>
    };
    let digits = if division is Some {
        u.drop_last()
    } else {
        u
    };
    let after_plus = if plus {
        n - 1
    } else {
        n
    };
    let stop = if division is Some {
        after_plus - 1
    } else {
        after_plus
    };
    assert(u =~= s.subrange(i as int, after_plus));
    assert(digits =~= s.subrange(i as int, stop));
    if end == i {
        if digits.len() > 0 {
            assert(digits[0] == s[i as int]);
            assert(!is_digit(digits[0]));
        }
    } else if end < stop {
        assert(!is_digit(digits[end - i]));
    } else {
        if end > stop {
            // The character at `stop` lies inside the digit run, yet it was
            // stripped as a "+" or as a division letter, which no digit is.
            assert(is_digit(run[stop - i]));
            if division is Some {
                assert(s[stop] == u.last());
                assert(false);
            } else {
                assert(s[stop] == t.last());
                assert(false);
            }
        }
        assert(end == stop);
        assert(digits =~= run);
        // The tail the spec strips is exactly a shape the third disjunct
        // names, so the run's value must be what is wrong.
        if stop < n {
            if division is Some {
                assert(s[end as int] == u.last());
                if plus {
                    assert(s[end as int + 1] == t.last());
                }
            } else {
                assert(s[end as int] == t.last());
            }
        }
        assert(dec_val(digits) > u8::MAX);
    }
}

impl GradeTrait for Fontainebleau {
    open spec fn rendered(&self) -> Seq<char> {
        fontainebleau_rendered(self@)
    }

    fn render(&self) -> (r: String) {
        proof {
            reveal_strlit("A");
            reveal_strlit("B");
            reveal_strlit("C");
            reveal_strlit("+");
        }
        let mut r = digits_string(self.level);
        match self.division {
            Some(Division::A) => r.append("A"),
            Some(Division::B) => r.append("B"),
            Some(Division::C) => r.append("C"),
            None => (),
        }
        if self.plus {
            r.append("+");
        }
        proof {
            assert(r@ =~= fontainebleau_rendered(self@));
        }
        r
    }
}

/// Where a division stands in the lexicographic order: no division, then A,
/// then B, then C.
pub open spec fn division_rank(d: Option<Division>) -> int {
    match d {
        None => 0,
        Some(Division::A) => 1,
        Some(Division::B) => 2,
        Some(Division::C) => 3,
    }
}

/// How two Fontainebleau grades compare: by level first, then by division
/// (A below B below C), then by the plus flag — plain lexicographic order
/// over the fields, every pair ordered.
pub open spec fn fontainebleau_cmp(a: FontainebleauView, b: FontainebleauView) -> Option<Ordering> {
    if a.level != b.level {
        if a.level < b.level {
            Some(Ordering::Less)
        } else {
            Some(Ordering::Greater)
        }
    } else if division_rank(a.division) != division_rank(b.division) {
        if division_rank(a.division) < division_rank(b.division) {
            Some(Ordering::Less)
        } else {
            Some(Ordering::Greater)
        }
    } else if a.plus != b.plus {
        if !a.plus {
            Some(Ordering::Less)
        } else {
            Some(Ordering::Greater)
        }
    } else {
        Some(Ordering::Equal)
    }
}

/// The rank of a division, exactly as [`division_rank`] says.
fn division_rank_of(d: Option<Division>) -> (r: u8)
    ensures
        r == division_rank(d),
{
    match d {
        None => 0,
        Some(Division::A) => 1,
        Some(Division::B) => 2,
        Some(Division::C) => 3,
    }
}

impl PartialOrd for Fontainebleau {
    /// Compares two Fontainebleau grades as [`fontainebleau_cmp`] says.
    fn partial_cmp(&self, other: &Fontainebleau) -> (r: Option<Ordering>)
        ensures
            r == fontainebleau_cmp(self@, other@),
    {
        if self.level != other.level {
            if self.level < other.level {
                Some(Ordering::Less)
            } else {
                Some(Ordering::Greater)
            }
        } else {
            let ra = division_rank_of(self.division);
            let rb = division_rank_of(other.division);
            if ra != rb {
                if ra < rb {
                    Some(Ordering::Less)
                } else {
                    Some(Ordering::Greater)
                }
            } else if self.plus != other.plus {
                if !self.plus {
                    Some(Ordering::Less)
                } else {
                    Some(Ordering::Greater)
                }
            } else {
                Some(Ordering::Equal)
            }
        }
    }
}

impl vstd::std_specs::cmp::PartialOrdSpecImpl for Fontainebleau {
    open spec fn obeys_partial_cmp_spec() -> bool {
        true
    }

    open spec fn partial_cmp_spec(&self, other: &Fontainebleau) -> Option<Ordering> {
        fontainebleau_cmp(self@, other@)
    }
}

impl core::str::FromStr for Fontainebleau {
    type Err = FontainebleauParseError;

    fn from_str(s: &str) -> (r: Result<Fontainebleau, FontainebleauParseError>) {
        Fontainebleau::parse(s)
    }
}

/// Round trip: parsing the canonical rendering of any well-formed
/// Fontainebleau grade gives the grade back — the canonical form writes no
/// scale-marker letter, and parsing asks for none.
pub proof fn lemma_fontainebleau_round_trip(v: FontainebleauView)
    requires
        fontainebleau_wf(v),
    ensures
        fontainebleau_parse(fontainebleau_rendered(v)) == Ok::<
            FontainebleauView,
            FontainebleauParseError,
        >(v),
{
    let s = fontainebleau_rendered(v);
    let d = dec_seq(v.level as nat);
    lemma_dec_seq(v.level as nat);
    assert(s[0] == d[0]);
    assert(is_digit(d[0]));
    let t = strip_marker(s, 'f', 'F');
    assert(t =~= s);
    let ds = division_rendered(v.division);
    if v.plus {
        assert(t.last() == '+');
        assert(t.drop_last() =~= d + ds);
    } else {
        assert(t =~= d + ds);
    }
    let u = d + ds;
    match v.division {
        Some(Division::A) => {
            assert(u.last() == 'A');
            assert(u.drop_last() =~= d);
        },
        Some(Division::B) => {
            assert(u.last() == 'B');
            assert(u.drop_last() =~= d);
        },
        Some(Division::C) => {
            assert(u.last() == 'C');
            assert(u.drop_last() =~= d);
        },
        None => {
            assert(u =~= d);
            assert(is_digit(u[u.len() - 1]));
        },
    }
}

/// A string without a single digit — the empty string among them — never
/// parses as a Fontainebleau grade.
pub proof fn lemma_fontainebleau_without_digits_invalid(s: Seq<char>)
    requires
        forall|j: int| 0 <= j < s.len() ==> !is_digit(#[trigger] s[j]),
    ensures
        fontainebleau_parse(s) == Err::<FontainebleauView, FontainebleauParseError>(
            FontainebleauParseError::InvalidStr,
        ),
{
    let t = strip_marker(s, 'f', 'F');
    let plus = t.len() > 0 && t.last() == '+';
    let u = if plus {
        t.drop_last()
    } else {
        t
    };
    let division = if u.len() > 0 {
        division_of_char(u.last())
    } else {
        None::<Division>
    };
    let digits = if division is Some {
        u.drop_last()
    } else {
        u
    };
    if digits.len() > 0 {
        if s.len() > 0 && (s[0] == 'f' || s[0] == 'F') {
            assert(digits[0] == s[1]);
        } else {
            assert(digits[0] == s[0]);
        }
        assert(!is_digit(digits[0]));
    }
}

/// Case insensitivity: lowering every character of a string never changes
/// what it parses to as a Fontainebleau grade.
pub proof fn lemma_fontainebleau_parse_case_insensitive(s: Seq<char>)
    ensures
        fontainebleau_parse(to_lower(s)) == fontainebleau_parse(s),
{
    let ls = to_lower(s);
    if s.len() > 0 {
        lemma_lower_char(s[0]);
    }
    let t = strip_marker(s, 'f', 'F');
    let lt = strip_marker(ls, 'f', 'F');
    assert(lt =~= to_lower(t));
    if t.len() > 0 {
        lemma_lower_char(t.last());
        assert(lt.last() == lower_char(t.last()));
    }
    let plus = t.len() > 0 && t.last() == '+';
    let u = if plus {
        t.drop_last()
    } else {
        t
    };
    let lu = if plus {
        lt.drop_last()
    } else {
        lt
    };
    assert(lu =~= to_lower(u));
    if u.len() > 0 {
        lemma_lower_char(u.last());
        assert(lu.last() == lower_char(u.last()));
    }
    let division = if u.len() > 0 {
        division_of_char(u.last())
    } else {
        None::<Division>
    };
    let digits = if division is Some {
        u.drop_last()
    } else {
        u
    };
    let ldigits = if division is Some {
        lu.drop_last()
    } else {
        lu
    };
    assert(ldigits =~= to_lower(digits));
    assert forall|j: int| 0 <= j < digits.len() implies is_digit(#[trigger] ldigits[j]) == is_digit(
        digits[j],
    ) by {
        lemma_lower_char(digits[j]);
    }
    if all_digits(digits) {
        assert(all_digits(ldigits));
        assert forall|j: int| 0 <= j < digits.len() implies #[trigger] ldigits[j] == digits[j] by {
            lemma_lower_char(digits[j]);
        }
        assert(ldigits =~= digits);
    } else {
        let j = choose|j: int| 0 <= j < digits.len() && !is_digit(#[trigger] digits[j]);
        assert(!is_digit(ldigits[j]));
        assert(!all_digits(ldigits));
    }
}

} // verus!
