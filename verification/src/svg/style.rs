//! Style keywords: fill rule, line cap and line join, and `none`.

use vstd::prelude::*;
use crate::text::{lower_chars, str_eq_ignore_case};
use crate::types::{FillRule, LineCap, LineJoin};

verus! {

/// The two strings are equal once ASCII-lower-cased.
pub open spec fn same_ignoring_case(a: Seq<char>, b: Seq<char>) -> bool {
    lower_chars(a) == lower_chars(b)
}

/// Reads `fill-rule`: `evenodd` in any ASCII case, else non-zero.
pub fn parse_fill_rule(v: Option<&str>) -> (r: FillRule)
    ensures
        r == (if v matches Some(s) && same_ignoring_case(s@, "evenodd"@) {
            FillRule::EvenOdd
        } else {
            FillRule::NonZero
        }),
{
    match v {
        Some(s) => {
            if str_eq_ignore_case(s, "evenodd") {
                FillRule::EvenOdd
            } else {
                FillRule::NonZero
            }
        },
        None => FillRule::NonZero,
    }
}

/// Reads `stroke-linecap`: `round` or `square` in any ASCII case, else butt.
pub fn parse_line_cap(v: Option<&str>) -> (r: LineCap)
    ensures
        r == (match v {
            Some(s) => if same_ignoring_case(s@, "round"@) {
                LineCap::Round
            } else if same_ignoring_case(s@, "square"@) {
                LineCap::Square
            } else {
                LineCap::Butt
            },
            None => LineCap::Butt,
        }),
{
    match v {
        Some(s) => {
            if str_eq_ignore_case(s, "round") {
                LineCap::Round
            } else if str_eq_ignore_case(s, "square") {
                LineCap::Square
            } else {
                LineCap::Butt
            }
        },
        None => LineCap::Butt,
    }
}

/// Reads `stroke-linejoin`: `round` or `bevel` in any ASCII case, else
/// miter.
pub fn parse_line_join(v: Option<&str>) -> (r: LineJoin)
    ensures
        r == (match v {
            Some(s) => if same_ignoring_case(s@, "round"@) {
                LineJoin::Round
            } else if same_ignoring_case(s@, "bevel"@) {
                LineJoin::Bevel
            } else {
                LineJoin::Miter
            },
            None => LineJoin::Miter,
        }),
{
    match v {
        Some(s) => {
            if str_eq_ignore_case(s, "round") {
                LineJoin::Round
            } else if str_eq_ignore_case(s, "bevel") {
                LineJoin::Bevel
            } else {
                LineJoin::Miter
            }
        },
        None => LineJoin::Miter,
    }
}

/// Whether a paint value is `none` in any ASCII case.
pub fn is_none_value(s: &str) -> (r: bool)
    ensures
        r == same_ignoring_case(s@, "none"@),
{
    str_eq_ignore_case(s, "none")
}

} // verus!
