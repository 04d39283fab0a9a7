//! Rendering exact rational scores as text.
use vstd::prelude::*;

use vstd::string::StringExecFns;

use crate::score::Score;

verus! {

/// The character for one decimal digit value.
pub open spec fn digit_char(d: int) -> char {
    if d == 0 {
        '0'
    } else if d == 1 {
        '1'
    } else if d == 2 {
        '2'
    } else if d == 3 {
        '3'
    } else if d == 4 {
        '4'
    } else if d == 5 {
        '5'
    } else if d == 6 {
        '6'
    } else if d == 7 {
        '7'
    } else if d == 8 {
        '8'
    } else {
        '9'
    }
}

/// The usual decimal rendering of a nonnegative integer: most
/// significant digit first, no leading zeros except for zero itself.
pub open spec fn dec_digits(n: int) -> Seq<char>
    decreases n,
{
    if n < 10 {
        seq![digit_char(n)]
    } else {
        dec_digits(n / 10).push(digit_char(n % 10))
    }
}

/// The text form of one score: its numerator and denominator in
/// decimal, joined by a slash.
pub open spec fn score_text(s: Score) -> Seq<char> {
    dec_digits(s.num as int) + seq!['/'] + dec_digits(s.den as int)
}

/// The text form of the six scores joined by a separator, in the fixed
/// reporting order.
pub open spec fn scores_text(
    coverage: Score,
    uniqueness: Score,
    amplitude: Score,
    continuity: Score,
    interval_amplitude: Score,
    composite: Score,
    sep: Seq<char>,
) -> Seq<char> {
    score_text(coverage) + sep + score_text(uniqueness) + sep + score_text(amplitude) + sep
        + score_text(continuity) + sep + score_text(interval_amplitude) + sep + score_text(
        composite,
    )
}

/// One decimal digit as a string slice.
fn digit_str(d: u128) -> (r: &'static str)
    requires
        d < 10,
    ensures
        r@ == seq![digit_char(d as int)],
{
    if d == 0 {
        proof {
            reveal_strlit("0");
        }
        let s = "0";
        assert(s@ =~= seq![digit_char(0)]);
        s
    } else if d == 1 {
        proof {
            reveal_strlit("1");
        }
        let s = "1";
        assert(s@ =~= seq![digit_char(1)]);
        s
    } else if d == 2 {
        proof {
            reveal_strlit("2");
        }
        let s = "2";
        assert(s@ =~= seq![digit_char(2)]);
        s
    } else if d == 3 {
        proof {
            reveal_strlit("3");
        }
        let s = "3";
        assert(s@ =~= seq![digit_char(3)]);
        s
    } else if d == 4 {
        proof {
            reveal_strlit("4");
        }
        let s = "4";
        assert(s@ =~= seq![digit_char(4)]);
        s
    } else if d == 5 {
        proof {
            reveal_strlit("5");
        }
        let s = "5";
        assert(s@ =~= seq![digit_char(5)]);
        s
    } else if d == 6 {
        proof {
            reveal_strlit("6");
        }
        let s = "6";
        assert(s@ =~= seq![digit_char(6)]);
        s
    } else if d == 7 {
        proof {
            reveal_strlit("7");
        }
        let s = "7";
        assert(s@ =~= seq![digit_char(7)]);
        s
    } else if d == 8 {
        proof {
            reveal_strlit("8");
        }
        let s = "8";
        assert(s@ =~= seq![digit_char(8)]);
        s
    } else {
        proof {
            reveal_strlit("9");
        }
        let s = "9";
        assert(s@ =~= seq![digit_char(9)]);
        s
    }
}

/// Append the decimal rendering of `n` to `out`.
pub fn push_decimal(out: &mut String, n: u128)
    ensures
        final(out)@ == old(out)@ + dec_digits(n as int),
    decreases n,
{
    if n < 10 {
        out.append(digit_str(n));
    } else {
        let ghost mid = out@;
        push_decimal(out, n / 10);
        out.append(digit_str(n % 10));
        assert(mid + dec_digits((n / 10) as int) + seq![digit_char((n % 10) as int)] =~= mid
            + dec_digits(n as int));
    }
}

/// Append the text form of one score to `out`.
pub fn push_score(out: &mut String, s: Score)
    ensures
        final(out)@ == old(out)@ + score_text(s),
{
    let ghost start = out@;
    push_decimal(out, s.num);
    proof {
        reveal_strlit("/");
    }
    out.append("/");
    assert(out@ =~= start + dec_digits(s.num as int) + seq!['/']);
    push_decimal(out, s.den);
    assert(start + dec_digits(s.num as int) + seq!['/'] + dec_digits(s.den as int) =~= start
        + score_text(s));
}

} // verus!
