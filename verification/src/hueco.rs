//! Hueco boulder-problem grades.
//!
//! The primarily American scale developed in Hueco Tanks, sometimes called
//! the V-scale. A grade is an open-ended level, optionally refined by a
//! "+" or "-" modifier. Rendering writes a leading "V"; parsing accepts that
//! marker in either case and tolerates its absence.

use vstd::prelude::*;
use vstd::string::StrSliceExecFns;
use vstd::string::StringExecFns;
use core::cmp::Ordering;

use crate::grades::GradeTrait;
use crate::grades::strip_marker;
use crate::numerals::all_digits;
use crate::numerals::dec_seq;
use crate::numerals::dec_val;
use crate::numerals::digit_run;
use crate::numerals::digits_string;
use crate::numerals::is_digit;
use crate::numerals::lemma_dec_seq;
use crate::numerals::lemma_lower_char;
use crate::numerals::lower_char;
use crate::numerals::to_lower;

verus! {

/// A modifier refining a grading level: perceived difficulty runs
/// `Minus`, then no modifier, then `Plus`.
#[derive(Clone, Copy, Debug, PartialEq, Eq)]
pub enum Modifier {
    /// Marks the grade slightly easier than its bare level.
    Minus,
    /// Marks the grade slightly harder than its bare level.
    Plus,
}

/// A Hueco grade: a level on an open-ended scale, with an optional modifier.
/// Every combination of level and modifier is a valid grade.
#[derive(Debug, PartialEq)]
pub struct Hueco {
    level: u8,
    modifier: Option<Modifier>,
}

/// The fields of a [`Hueco`] grade, as contracts speak of them.
pub struct HuecoView {
    pub level: u8,
    pub modifier: Option<Modifier>,
}

impl View for Hueco {
    type V = HuecoView;

    closed spec fn view(&self) -> HuecoView {
        HuecoView { level: self.level, modifier: self.modifier }
    }
}

/// Failures when reading a Hueco grade from a string.
#[derive(Clone, Copy, Debug, PartialEq, Eq)]
pub enum HuecoParseError {
    /// The string does not have the shape of a Hueco grade.
    InvalidStr,
}

/// The canonical rendering of a modifier: "+", "-", or nothing.
pub open spec fn modifier_rendered(m: Option<Modifier>) -> Seq<char> {
    match m {
        Some(Modifier::Minus) => seq!['-'],
        Some(Modifier::Plus) => seq!['+'],
        None => Seq::<char>::empty(),
    }
}

/// The canonical rendering of a Hueco grade: a capital "V", the level in
/// decimal, then the modifier.
pub open spec fn hueco_rendered(v: HuecoView) -> Seq<char> {
    seq!['V'] + dec_seq(v.level as nat) + modifier_rendered(v.modifier)
}

impl Hueco {
    /// Creates a new Hueco grade; every level and modifier pair is accepted.
    pub fn new(level: u8, modifier: Option<Modifier>) -> (g: Hueco)
        ensures
            g@ == (HuecoView { level, modifier }),
    {
        Hueco { level, modifier }
    }
}

/// What parsing a string as a Hueco grade yields. After an optional leading
/// "v" or "V" marker the string must hold one or more digits — a level no
/// larger than a level can be — and may end in a single "+" or "-" modifier;
/// any other shape is invalid.
pub open spec fn hueco_parse(s: Seq<char>) -> Result<HuecoView, HuecoParseError> {
    let t = strip_marker(s, 'v', 'V');
    let has_modifier = t.len() > 0 && (t.last() == '+' || t.last() == '-');
    let digits = if has_modifier {
        t.drop_last()
    } else {
        t
    };
    if digits.len() > 0 && all_digits(digits) && dec_val(digits) <= u8::MAX {
        Ok(
            HuecoView {
                level: dec_val(digits) as u8,
                modifier: if !has_modifier {
                    None
                } else if t.last() == '+' {
                    Some(Modifier::Plus)
                } else {
                    Some(Modifier::Minus)
                },
            },
        )
    } else {
        Err(HuecoParseError::InvalidStr)
    }
}

impl Hueco {
    /// Reads a Hueco grade from a string, exactly as [`hueco_parse`] says.
    pub fn parse(s: &str) -> (r: Result<Hueco, HuecoParseError>)
        ensures
            r matches Ok(g) ==> hueco_parse(s@) == Ok::<HuecoView, HuecoParseError>(g@),
            r matches Err(e) ==> hueco_parse(s@) == Err::<HuecoView, HuecoParseError>(e),
    {
        let n = s.unicode_len();
        let mut i: usize = 0;
        if n > 0 {
            let c0 = s.get_char(0);
            if c0 == 'v' || c0 == 'V' {
                i = 1;
            }
        }
        let ghost t = strip_marker(s@, 'v', 'V');
        proof {
            assert(t =~= s@.subrange(i as int, n as int));
        }
        let (end, val) = digit_run(s, i);
        let ghost run = s@.subrange(i as int, end as int);
        if end == i {
            proof {
                lemma_rest_invalid(s@, i as nat, end as nat);
            }
            return Err(HuecoParseError::InvalidStr);
        }
        if val > u8::MAX as u32 {
            proof {
                lemma_rest_invalid(s@, i as nat, end as nat);
            }
            return Err(HuecoParseError::InvalidStr);
        }
        let level = val as u8;
        if end == n {
            proof {
                assert(run =~= t);
                assert(is_digit(run[end - i - 1]));
            }
            return Ok(Hueco { level, modifier: None });
        }
        let c = s.get_char(end);
        if end + 1 == n {
            if c == '+' || c == '-' {
                proof {
                    assert(t.last() == c);
                    assert(run =~= t.drop_last());
                }
                let modifier = if c == '+' {
                    Some(Modifier::Plus)
                } else {
                    Some(Modifier::Minus)
                };
                return Ok(Hueco { level, modifier });
            }
        }
        proof {
            lemma_rest_invalid(s@, i as nat, end as nat);
        }
        Err(HuecoParseError::InvalidStr)
    }
}

/// When the digit run that starts where the marker ends is empty, overlong,
/// or stops short of the place a modifier may stand, no shape of the
/// remainder can make the string parse.
proof fn lemma_rest_invalid(s: Seq<char>, i: nat, end: nat)
    requires
        i <= end <= s.len(),
        strip_marker(s, 'v', 'V') =~= s.subrange(i as int, s.len() as int),
        all_digits(s.subrange(i as int, end as int)),
        end < s.len() ==> !is_digit(s[end as int]),
        end == i || dec_val(s.subrange(i as int, end as int)) > u8::MAX || (end < s.len()
            && !(end + 1 == s.len() && (s[end as int] == '+' || s[end as int] == '-'))),
    ensures
        hueco_parse(s) == Err::<HuecoView, HuecoParseError>(HuecoParseError::InvalidStr),
{
    let t = strip_marker(s, 'v', 'V');
    let n = s.len() as int;
    let run = s.subrange(i as int, end as int);
    let has_modifier = t.len() > 0 && (t.last() == '+' || t.last() == '-');
    let digits = if has_modifier {
        t.drop_last()
    } else {
        t
    };
    let stop = if has_modifier {
        n - 1
    } else {
        n
    };
    assert(digits =~= s.subrange(i as int, stop));
    if end == i {
        if digits.len() > 0 {
            assert(!is_digit(digits[0]));
        }
    } else if end < stop {
        assert(!is_digit(digits[end - i]));
    } else {
        if has_modifier && end == s.len() {
            // The last character would be both a digit of the run and a
            // modifier, which no character is.
            assert(is_digit(run[end - i - 1]));
            assert(false);
        }
        // The digit run reaches `stop`: all of `digits` is the run itself,
        // whose value is too large for a level.
        assert(end == stop);
        assert(digits =~= run);
    }
}

impl GradeTrait for Hueco {
    open spec fn rendered(&self) -> Seq<char> {
        hueco_rendered(self@)
    }

    fn render(&self) -> (r: String) {
        proof {
            reveal_strlit("V");
            reveal_strlit("+");
            reveal_strlit("-");
        }
        let mut r: String = "V".to_owned();
        let digits = digits_string(self.level);
        r.append(digits.as_str());
        match self.modifier {
            Some(Modifier::Plus) => r.append("+"),
            Some(Modifier::Minus) => r.append("-"),
            None => (),
        }
        proof {
            assert(r@ =~= hueco_rendered(self@));
        }
        r
    }
}

/// Where a modifier stands in perceived difficulty: `Minus` below no
/// modifier, no modifier below `Plus`.
pub open spec fn modifier_rank(m: Option<Modifier>) -> int {
    match m {
        Some(Modifier::Minus) => 0,
        None => 1,
        Some(Modifier::Plus) => 2,
    }
}

/// How two Hueco grades compare. Differing levels order the grades by level
/// alone. At equal levels, identical modifiers leave the pair without a
/// defined order — deliberately a partial order, where value-equal grades
/// are incomparable rather than equal-and-ordered — and differing modifiers
/// order by perceived difficulty, `Minus` below none below `Plus`.
pub open spec fn hueco_cmp(a: HuecoView, b: HuecoView) -> Option<Ordering> {
    if a.level != b.level {
        if a.level < b.level {
            Some(Ordering::Less)
        } else {
            Some(Ordering::Greater)
        }
    } else if a.modifier == b.modifier {
        None
    } else if modifier_rank(a.modifier) < modifier_rank(b.modifier) {
        Some(Ordering::Less)
    } else {
        Some(Ordering::Greater)
    }
}

impl PartialOrd for Hueco {
    /// Compares two Hueco grades as [`hueco_cmp`] says, by explicit case
    /// analysis: the modifier order is not the order the modifiers are
    /// declared in, and the one-sided cases need their own branches.
    fn partial_cmp(&self, other: &Hueco) -> (r: Option<Ordering>)
        ensures
            r == hueco_cmp(self@, other@),
    {
        if self.level != other.level {
            if self.level < other.level {
                Some(Ordering::Less)
            } else {
                Some(Ordering::Greater)
            }
        } else {
            match (self.modifier, other.modifier) {
                (None, None) => None,
                (Some(Modifier::Minus), Some(Modifier::Minus)) => None,
                (Some(Modifier::Plus), Some(Modifier::Plus)) => None,
                (Some(Modifier::Minus), None) => Some(Ordering::Less),
                (None, Some(Modifier::Minus)) => Some(Ordering::Greater),
                (Some(Modifier::Minus), Some(Modifier::Plus)) => Some(Ordering::Less),
                (Some(Modifier::Plus), Some(Modifier::Minus)) => Some(Ordering::Greater),
                (None, Some(Modifier::Plus)) => Some(Ordering::Less),
                (Some(Modifier::Plus), None) => Some(Ordering::Greater),
            }
        }
    }
}

impl vstd::std_specs::cmp::PartialOrdSpecImpl for Hueco {
    open spec fn obeys_partial_cmp_spec() -> bool {
        true
    }

    open spec fn partial_cmp_spec(&self, other: &Hueco) -> Option<Ordering> {
        hueco_cmp(self@, other@)
    }
}

impl core::str::FromStr for Hueco {
    type Err = HuecoParseError;

    fn from_str(s: &str) -> (r: Result<Hueco, HuecoParseError>) {
        Hueco::parse(s)
    }
}

/// Round trip: parsing the canonical rendering of any Hueco grade gives the
/// grade back.
pub proof fn lemma_hueco_round_trip(v: HuecoView)
    ensures
        hueco_parse(hueco_rendered(v)) == Ok::<HuecoView, HuecoParseError>(v),
{
    let s = hueco_rendered(v);
    let d = dec_seq(v.level as nat);
    lemma_dec_seq(v.level as nat);
    let t = strip_marker(s, 'v', 'V');
    assert(s[0] == 'V');
    assert(t =~= d + modifier_rendered(v.modifier));
    match v.modifier {
        None => {
            assert(t =~= d);
            assert(is_digit(t[t.len() - 1]));
        },
        Some(Modifier::Plus) => {
            assert(t.last() == '+');
            assert(t.drop_last() =~= d);
        },
        Some(Modifier::Minus) => {
            assert(t.last() == '-');
            assert(t.drop_last() =~= d);
        },
    }
}

/// A string without a single digit — the empty string among them — never
/// parses as a Hueco grade.
pub proof fn lemma_hueco_without_digits_invalid(s: Seq<char>)
    requires
        forall|j: int| 0 <= j < s.len() ==> !is_digit(#[trigger] s[j]),
    ensures
        hueco_parse(s) == Err::<HuecoView, HuecoParseError>(HuecoParseError::InvalidStr),
{
    let t = strip_marker(s, 'v', 'V');
    let has_modifier = t.len() > 0 && (t.last() == '+' || t.last() == '-');
    let digits = if has_modifier {
        t.drop_last()
    } else {
        t
    };
    if digits.len() > 0 {
        if s.len() > 0 && (s[0] == 'v' || s[0] == 'V') {
            assert(digits[0] == s[1]);
        } else {
            assert(digits[0] == s[0]);
        }
        assert(!is_digit(digits[0]));
    }
}

/// Case insensitivity: lowering every character of a string never changes
/// what it parses to as a Hueco grade.
pub proof fn lemma_hueco_parse_case_insensitive(s: Seq<char>)
    ensures
        hueco_parse(to_lower(s)) == hueco_parse(s),
{
    let ls = to_lower(s);
    if s.len() > 0 {
        lemma_lower_char(s[0]);
    }
    let t = strip_marker(s, 'v', 'V');
    let lt = strip_marker(ls, 'v', 'V');
    assert(lt =~= to_lower(t));
    if t.len() > 0 {
        lemma_lower_char(t.last());
        assert(lt.last() == lower_char(t.last()));
    }
    let has_modifier = t.len() > 0 && (t.last() == '+' || t.last() == '-');
    let digits = if has_modifier {
        t.drop_last()
    } else {
        t
    };
    let ldigits = if has_modifier {
        lt.drop_last()
    } else {
        lt
    };
    assert(ldigits =~= to_lower(digits));
    assert forall|j: int| 0 <= j < digits.len() implies is_digit(#[trigger] ldigits[j])
        == is_digit(digits[j]) by {
        lemma_lower_char(digits[j]);
    }
    if all_digits(digits) {
        assert(all_digits(ldigits));
        assert forall|j: int| 0 <= j < digits.len() implies #[trigger] ldigits[j]
            == digits[j] by {
            lemma_lower_char(digits[j]);
        }
        assert(ldigits =~= digits);
    } else {
        let j = choose|j: int| 0 <= j < digits.len() && !is_digit(#[trigger] digits[j]);
        assert(!is_digit(ldigits[j]));
        assert(!all_digits(ldigits));
    }
}

} // verus!
