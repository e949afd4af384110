//! B-scale boulder grades: the closed historical scale of the values B1, B2
//! and B3, rendered with a leading "B" and parsed with that marker optional
//! in either case.

use vstd::prelude::*;
use vstd::string::StrSliceExecFns;

use crate::grades::GradeTrait;
use crate::grades::strip_marker;

verus! {

/// The three values of the B scale, in rising difficulty.
#[derive(Clone, Copy, Debug, PartialEq, Eq, PartialOrd)]
pub enum Value {
    One,
    Two,
    Three,
}

/// A B grade.
#[derive(Debug, PartialEq, PartialOrd)]
pub struct Grade {
    pub value: Value,
}

/// The digit character a value is written with.
pub open spec fn value_char(v: Value) -> char {
    match v {
        Value::One => '1',
        Value::Two => '2',
        Value::Three => '3',
    }
}

/// The value a character names; `None` for every other character.
pub open spec fn value_of_char(c: char) -> Option<Value> {
    if c == '1' {
        Some(Value::One)
    } else if c == '2' {
        Some(Value::Two)
    } else if c == '3' {
        Some(Value::Three)
    } else {
        None
    }
}

/// The canonical rendering of a B grade: "B" then the value's digit.
pub open spec fn boulder_rendered(v: Value) -> Seq<char> {
    seq!['B', value_char(v)]
}

/// What parsing a string as a B grade yields: after an optional leading "b"
/// or "B" marker, exactly the digit of one of the three values.
pub open spec fn boulder_parse(s: Seq<char>) -> Option<Value> {
    let t = strip_marker(s, 'b', 'B');
    if t.len() == 1 {
        value_of_char(t[0])
    } else {
        None
    }
}

impl Grade {
    /// Reads a B grade from a string, exactly as [`boulder_parse`] says.
    pub fn parse(s: &str) -> (r: Result<Grade, ()>)
        ensures
            r matches Ok(g) ==> boulder_parse(s@) == Some(g.value),
            r is Err ==> boulder_parse(s@) is None,
    {
        let n = s.unicode_len();
        let mut i: usize = 0;
        if n > 0 {
            let c0 = s.get_char(0);
            if c0 == 'b' || c0 == 'B' {
                i = 1;
            }
        }
        let ghost t = strip_marker(s@, 'b', 'B');
        proof {
            assert(t =~= s@.subrange(i as int, n as int));
        }
        if n == i + 1 {
            let c = s.get_char(i);
            proof {
                assert(t[0] == c);
            }
            if c == '1' {
                Ok(Grade { value: Value::One })
            } else if c == '2' {
                Ok(Grade { value: Value::Two })
            } else if c == '3' {
                Ok(Grade { value: Value::Three })
            } else {
                Err(())
            }
        } else {
            Err(())
        }
    }
}

impl core::str::FromStr for Grade {
    type Err = ();

    fn from_str(s: &str) -> (r: Result<Grade, ()>) {
        Grade::parse(s)
    }
}

impl GradeTrait for Grade {
    open spec fn rendered(&self) -> Seq<char> {
        boulder_rendered(self.value)
    }

    fn render(&self) -> (r: String) {
        proof {
            reveal_strlit("B1");
            reveal_strlit("B2");
            reveal_strlit("B3");
        }
        let r: &str = match self.value {
            Value::One => "B1",
            Value::Two => "B2",
            Value::Three => "B3",
        };
        proof {
            assert(r@ =~= boulder_rendered(self.value));
        }
        r.to_owned()
    }
}

/// Round trip: parsing the canonical rendering of any B grade gives the
/// grade back.
pub proof fn lemma_boulder_round_trip(v: Value)
    ensures
        boulder_parse(boulder_rendered(v)) == Some(v),
{
    let s = boulder_rendered(v);
    assert(strip_marker(s, 'b', 'B') =~= seq![value_char(v)]);
}

} // verus!
