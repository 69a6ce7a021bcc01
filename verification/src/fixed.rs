//! Fixed-point representation of measured values.
//!
//! Every statistic in this crate is an integer number of millionths: the
//! value `v` stands for the real number `v / SCALE`.  Wall-clock nanoseconds,
//! counter readings, confidence levels and anomaly scores all share this
//! representation, so the analysis formulas are stated and proved exactly,
//! with explicit floor divisions where the mathematics rounds.

use vstd::prelude::*;
use vstd::string::StringExecFns;

use crate::textfmt::{dec_digits, dec_u64, dec_u64_pad, zero_pad};

verus! {

/// Millionths per unit: the denominator of every fixed-point value.
pub const SCALE: i64 = 1_000_000;

/// The decimal rendering of the fixed-point value `v`: the integer part,
/// then, when the fractional part is not zero, a point and six fractional
/// digits.
pub open spec fn spec_fixed_display(v: int) -> Seq<char>
    decreases (if v < 0 {
        1int
    } else {
        0int
    }),
{
    if v < 0 {
        seq!['-'] + spec_fixed_display(-v)
    } else if v % (SCALE as int) == 0 {
        dec_digits((v / (SCALE as int)) as nat)
    } else {
        dec_digits((v / (SCALE as int)) as nat) + seq!['.'] + zero_pad(
            dec_digits((v % (SCALE as int)) as nat),
            6,
        )
    }
}

/// Renders the fixed-point value `v` in decimal.
pub fn fixed_display(v: i64) -> (r: String)
    requires
        v > i64::MIN,
    ensures
        r@ == spec_fixed_display(v as int),
    decreases (if v < 0 {
        1int
    } else {
        0int
    }),
{
    if v < 0 {
        let mut s = "-".to_owned();
        let rest = fixed_display(-v);
        s.append(rest.as_str());
        proof {
            reveal_strlit("-");
            assert("-"@ =~= seq!['-']);
        }
        s
    } else {
        let whole = (v / SCALE) as u64;
        let frac = (v % SCALE) as u64;
        if frac == 0 {
            dec_u64(whole)
        } else {
            let mut s = dec_u64(whole);
            s.append(".");
            let f = dec_u64_pad(frac, 6);
            s.append(f.as_str());
            proof {
                reveal_strlit(".");
                assert("."@ =~= seq!['.']);
            }
            s
        }
    }
}

} // verus!
