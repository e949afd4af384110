//! The slash (range) composite: a display-only pair of grades of one scale
//! standing for grading uncertainty, rendered as the lower grade, a "/", and
//! the suffix of the upper grade past what it shares with the lower one.

use vstd::prelude::*;
use vstd::string::StrSliceExecFns;
use vstd::string::StringExecFns;

use crate::grades::GradeTrait;
use crate::numerals::is_digit;

verus! {

/// An uncertain range between two grades of the same scale. No rule relates
/// `lower` and `upper`: the pair is a rendering helper, nothing more.
pub struct SlashGrade<T> {
    pub lower: T,
    pub upper: T,
}

/// How many leading characters `a` and `b` share: the count grows while the
/// fronts agree character by character and stops at the first mismatch or at
/// either end.
pub open spec fn common_prefix_len(a: Seq<char>, b: Seq<char>) -> nat
    decreases a.len(),
{
    if a.len() == 0 || b.len() == 0 || a[0] != b[0] {
        0
    } else {
        (1 + common_prefix_len(a.skip(1), b.skip(1))) as nat
    }
}

/// Where a cut at `k` would fall inside a run of digits of `u`, the start
/// of that run; `k` itself otherwise.
pub open spec fn digit_run_start(u: Seq<char>, k: nat) -> nat
    recommends
        k <= u.len(),
    decreases k,
{
    if 0 < k < u.len() && is_digit(u[k - 1]) && is_digit(u[k as int]) {
        digit_run_start(u, (k - 1) as nat)
    } else {
        k
    }
}

/// How many leading characters of `upper` the rendering of a range drops:
/// the shared front of the two renderings, backed off so as never to cut a
/// run of digits of `upper` in two — a multi-digit level is dropped whole
/// or shown whole. "V4" and "V5" share "V", leaving "5"; "V10" and "V11"
/// share "V1", but cutting there would split the level "11", so only "V"
/// is dropped and "11" stays whole.
pub open spec fn slash_strip_len(lower: Seq<char>, upper: Seq<char>) -> nat {
    digit_run_start(upper, common_prefix_len(lower, upper))
}

/// The rendering of a range: `lower`, a "/", then `upper` without its
/// stripped front.
pub open spec fn slash_rendered(lower: Seq<char>, upper: Seq<char>) -> Seq<char> {
    lower + seq!['/'] + upper.skip(slash_strip_len(lower, upper) as int)
}

/// An index up to which two sequences agree, where one of them ends or the
/// characters differ, is their common prefix length.
proof fn lemma_common_prefix_len_at(a: Seq<char>, b: Seq<char>, k: nat)
    requires
        k <= a.len(),
        k <= b.len(),
        forall|j: int| 0 <= j < k ==> a[j] == b[j],
        k == a.len() || k == b.len() || a[k as int] != b[k as int],
    ensures
        common_prefix_len(a, b) == k,
    decreases k,
{
    if k == 0 {
    } else {
        assert(a[0] == b[0]);
        assert forall|j: int| 0 <= j < k - 1 implies a.skip(1)[j] == b.skip(1)[j] by {
            assert(a[j + 1] == b[j + 1]);
        }
        if k < a.len() && k < b.len() {
            assert(a.skip(1)[k - 1] == a[k as int]);
            assert(b.skip(1)[k - 1] == b[k as int]);
        }
        lemma_common_prefix_len_at(a.skip(1), b.skip(1), (k - 1) as nat);
    }
}

impl<T: GradeTrait> SlashGrade<T> {
    /// Renders the range exactly as [`slash_rendered`] says: the lower
    /// grade in full, a "/", then the upper grade stripped of the front it
    /// shares with the lower rendering — matched one character at a time up
    /// to the first mismatch, then backed off to the start of a digit run
    /// rather than cutting one in two.
    pub fn render(&self) -> (r: String)
        ensures
            r@ == slash_rendered(self.lower.rendered(), self.upper.rendered()),
    {
        proof {
            reveal_strlit("/");
        }
        let lower = self.lower.render();
        let upper = self.upper.render();
        let ln = lower.as_str().unicode_len();
        let un = upper.as_str().unicode_len();
        let mut k: usize = 0;
        loop
            invariant
                k <= ln,
                k <= un,
                ln == lower@.len(),
                un == upper@.len(),
                forall|j: int| 0 <= j < k ==> lower@[j] == upper@[j],
                lower@ == self.lower.rendered(),
                upper@ == self.upper.rendered(),
            ensures
                k <= ln,
                k <= un,
                forall|j: int| 0 <= j < k ==> lower@[j] == upper@[j],
                k == ln || k == un || lower@[k as int] != upper@[k as int],
            decreases ln - k,
        {
            if k >= ln || k >= un {
                break;
            }
            let cl = lower.as_str().get_char(k);
            let cu = upper.as_str().get_char(k);
            if cl != cu {
                break;
            }
            k = k + 1;
        }
        proof {
            lemma_common_prefix_len_at(lower@, upper@, k as nat);
        }
        let ghost shared = k as nat;
        loop
            invariant
                k <= un,
                un == upper@.len(),
                upper@ == self.upper.rendered(),
                digit_run_start(upper@, shared) == digit_run_start(upper@, k as nat),
            ensures
                k <= un,
                k == digit_run_start(upper@, shared),
            decreases k,
        {
            if k == 0 || k >= un {
                break;
            }
            let a = upper.as_str().get_char(k - 1);
            let b = upper.as_str().get_char(k);
            if !(a >= '0' && a <= '9' && b >= '0' && b <= '9') {
                break;
            }
            k = k - 1;
        }
        let suffix = upper.as_str().substring_char(k, un);
        let mut r = lower;
        r.append("/");
        r.append(suffix);
        proof {
            assert(r@ =~= slash_rendered(self.lower.rendered(), self.upper.rendered()));
        }
        r
    }
}

} // verus!
