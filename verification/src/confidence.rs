//! Confidence values and how they are printed.
//!
//! A confidence is a whole number of millionths: `900_000` stands for 0.9, `1_000_000` for
//! certainty.

use crate::text::decimal_text;
use crate::text::digit_char;
use crate::text::push_decimal;
use crate::text::push_digit;
use vstd::prelude::*;

verus! {

/// The confidence that stands for certainty.
pub const FULL_CONFIDENCE: u32 = 1_000_000;

/// A confidence in tenths of a percent, rounded to the nearest tenth, halves upwards.
pub open spec fn tenths_of_percent(score: nat) -> nat {
    (score + 500) / 1000
}

/// A confidence as a percentage with one decimal place, such as `90.0%`.
pub open spec fn percent_text(score: nat) -> Seq<char> {
    let tenths = tenths_of_percent(score);
    decimal_text(tenths / 10) + "."@ + seq![digit_char(tenths % 10)] + "%"@
}

/// Appends the percentage of `score` to `out`.
pub fn push_percent(out: &mut String, score: u32)
    ensures
        final(out)@ == old(out)@ + percent_text(score as nat),
{
    let ghost before = out@;
    let tenths: u64 = (score as u64 + 500) / 1000;
    push_decimal(out, tenths / 10);
    out.append(".");
    push_digit(out, (tenths % 10) as u8);
    out.append("%");
    assert(out@ =~= before + percent_text(score as nat));
}

/// Prints a confidence as a percentage with one decimal place.
pub fn format_sentiment_score(score: u32) -> (r: String)
    ensures
        r@ == percent_text(score as nat),
{
    let mut out = String::new();
    push_percent(&mut out, score);
    assert(out@ =~= percent_text(score as nat));
    out
}

} // verus!
