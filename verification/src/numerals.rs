//! Decimal-numeral primitives shared by the grade scales: the digit
//! characters, the value of a run of digits, and the canonical digit run of a
//! number.

use vstd::prelude::*;
use vstd::string::StrSliceExecFns;
use vstd::string::StringExecFns;

verus! {

/// Whether `c` is a decimal digit character.
pub open spec fn is_digit(c: char) -> bool {
    '0' <= c <= '9'
}

/// The numeric value of a digit character.
pub open spec fn digit_val(c: char) -> int {
    c as int - '0' as int
}

/// The digit character of a value below ten.
pub open spec fn digit_char(d: int) -> char
    recommends
        0 <= d < 10,
{
    (('0' as int + d) as char)
}

/// Whether every character of `s` is a decimal digit.
pub open spec fn all_digits(s: Seq<char>) -> bool {
    forall|i: int| 0 <= i < s.len() ==> is_digit(#[trigger] s[i])
}

/// The number written by a run of digit characters, most significant first.
/// An empty run writes zero.
pub open spec fn dec_val(s: Seq<char>) -> int
    decreases s.len(),
{
    if s.len() == 0 {
        0
    } else {
        dec_val(s.drop_last()) * 10 + digit_val(s.last())
    }
}

/// The canonical digit run of `n`: no sign, and no leading zero except for
/// zero itself.
pub open spec fn dec_seq(n: nat) -> Seq<char>
    decreases n,
{
    if n < 10 {
        seq![digit_char(n as int)]
    } else {
        dec_seq(n / 10).push(digit_char((n % 10) as int))
    }
}

proof fn digit_char_val(d: int)
    requires
        0 <= d < 10,
    ensures
        is_digit(digit_char(d)),
        digit_val(digit_char(d)) == d,
{
    assert(('0' as int + d) <= '9' as int);
    assert((('0' as int + d) as char) as int == '0' as int + d);
}

/// The canonical digit run of any number is non-empty, consists of digits
/// alone, and writes that number back.
pub proof fn lemma_dec_seq(n: nat)
    ensures
        dec_seq(n).len() >= 1,
        all_digits(dec_seq(n)),
        dec_val(dec_seq(n)) == n,
    decreases n,
{
    if n < 10 {
        digit_char_val(n as int);
        assert(dec_seq(n).drop_last() =~= Seq::<char>::empty());
        assert(dec_val(dec_seq(n)) == dec_val(Seq::<char>::empty()) * 10 + digit_val(digit_char(n as int)));
    } else {
        lemma_dec_seq(n / 10);
        digit_char_val((n % 10) as int);
        assert(dec_seq(n).drop_last() =~= dec_seq(n / 10));
        vstd::arithmetic::div_mod::lemma_fundamental_div_mod(n as int, 10);
        assert(dec_val(dec_seq(n)) == (n / 10) * 10 + n % 10);
    }
}

/// `c` in lower case: an ASCII capital letter becomes its small form, and
/// every other character stays itself.
pub open spec fn lower_char(c: char) -> char {
    if 'A' <= c <= 'Z' {
        ((c as int + 32) as char)
    } else {
        c
    }
}

/// `s` with every character lowered.
pub open spec fn to_lower(s: Seq<char>) -> Seq<char> {
    s.map_values(|c: char| lower_char(c))
}

/// Lowering a character never touches the characters the grade grammars
/// give meaning to, except to identify a capital letter with its small form.
pub proof fn lemma_lower_char(c: char)
    ensures
        is_digit(lower_char(c)) == is_digit(c),
        is_digit(c) ==> lower_char(c) == c,
        (lower_char(c) == '+') == (c == '+'),
        (lower_char(c) == '-') == (c == '-'),
        (lower_char(c) == 'v' || lower_char(c) == 'V') == (c == 'v' || c == 'V'),
        (lower_char(c) == 'f' || lower_char(c) == 'F') == (c == 'f' || c == 'F'),
        (lower_char(c) == 'b' || lower_char(c) == 'B') == (c == 'b' || c == 'B'),
        (lower_char(c) == 'a') == (c == 'a' || c == 'A'),
        (lower_char(c) == 'b') == (c == 'b' || c == 'B'),
        (lower_char(c) == 'c') == (c == 'c' || c == 'C'),
        !('A' <= lower_char(c) <= 'Z'),
{
    if 'A' <= c <= 'Z' {
        assert(((c as int + 32) as char) as int == c as int + 32);
    }
}

/// The string slice holding exactly the digit character of `d`.
fn digit_str(d: u8) -> (r: &'static str)
    requires
        d < 10,
    ensures
        r@ == seq![digit_char(d as int)],
{
    proof {
        reveal_strlit("0");
        reveal_strlit("1");
        reveal_strlit("2");
        reveal_strlit("3");
        reveal_strlit("4");
        reveal_strlit("5");
        reveal_strlit("6");
        reveal_strlit("7");
        reveal_strlit("8");
        reveal_strlit("9");
    }
    let r: &'static str = if d == 0 {
        "0"
    } else if d == 1 {
        "1"
    } else if d == 2 {
        "2"
    } else if d == 3 {
        "3"
    } else if d == 4 {
        "4"
    } else if d == 5 {
        "5"
    } else if d == 6 {
        "6"
    } else if d == 7 {
        "7"
    } else if d == 8 {
        "8"
    } else {
        "9"
    };
    proof {
        assert(r@ =~= seq![digit_char(d as int)]);
    }
    r
}

/// The canonical decimal rendering of `n`, as a string.
pub fn digits_string(n: u8) -> (r: String)
    ensures
        r@ == dec_seq(n as nat),
    decreases n,
{
    if n < 10 {
        digit_str(n).to_owned()
    } else {
        let mut r = digits_string(n / 10);
        r.append(digit_str(n % 10));
        proof {
            assert(r@ =~= dec_seq(n as nat));
        }
        r
    }
}

/// Scans the run of digit characters of `s` that starts at `from`, returning
/// where the run ends and the number it writes, saturated just above the
/// largest level a grade can carry.
pub fn digit_run(s: &str, from: usize) -> (r: (usize, u32))
    requires
        from as int <= s@.len(),
    ensures
        from <= r.0 <= s@.len(),
        all_digits(s@.subrange(from as int, r.0 as int)),
        r.0 < s@.len() ==> !is_digit(s@[r.0 as int]),
        dec_val(s@.subrange(from as int, r.0 as int)) <= u8::MAX ==> r.1 == dec_val(
            s@.subrange(from as int, r.0 as int),
        ),
        dec_val(s@.subrange(from as int, r.0 as int)) > u8::MAX ==> r.1 > u8::MAX,
{
    let n = s.unicode_len();
    let mut end = from;
    let mut val: u32 = 0;
    loop
        invariant
            from <= end <= n,
            n == s@.len(),
            all_digits(s@.subrange(from as int, end as int)),
            dec_val(s@.subrange(from as int, end as int)) <= u8::MAX ==> val == dec_val(
                s@.subrange(from as int, end as int),
            ),
            dec_val(s@.subrange(from as int, end as int)) > u8::MAX ==> u8::MAX < val <= 2559,
            val <= 2559,
        ensures
            from <= end <= n,
            all_digits(s@.subrange(from as int, end as int)),
            end < n ==> !is_digit(s@[end as int]),
            dec_val(s@.subrange(from as int, end as int)) <= u8::MAX ==> val == dec_val(
                s@.subrange(from as int, end as int),
            ),
            dec_val(s@.subrange(from as int, end as int)) > u8::MAX ==> val > u8::MAX,
        decreases n - end,
    {
        if end >= n {
            break;
        }
        let c = s.get_char(end);
        if !(c >= '0' && c <= '9') {
            break;
        }
        let d: u32 = c as u32 - '0' as u32;
        let ghost prev = s@.subrange(from as int, end as int);
        proof {
            assert(d == digit_val(c)) by {
                assert(c as u32 == c as int);
            }
            assert(s@.subrange(from as int, end + 1).drop_last() =~= prev);
        }
        if val > u8::MAX as u32 {
            val = 256;
        } else {
            val = val * 10 + d;
        }
        end = end + 1;
    }
    (end, val)
}

} // verus!
