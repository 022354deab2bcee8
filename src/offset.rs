use vstd::prelude::*;

use crate::number::{has_fraction, number_parts, parse_number, whole_and_fraction, whole_part};
use crate::text::{digits_of, push_digits, push_signed, signed_digits};

verus! {

/// Whether an offset lies below zero: a minus sign on a value that is not
/// zero (`-0` counts as zero).
pub open spec fn is_below_zero(negative: bool, whole: nat, fraction: bool) -> bool {
    negative && (whole > 0 || fraction)
}

/// Sixty times the fraction of an hour, rounded half away from zero, for an
/// offset whose size has the whole part `whole` (in seconds). A fraction of
/// a second never moves the rounding. The fraction keeps the sign of the
/// offset, so an offset below zero gives negative minutes.
pub open spec fn minute_part(negative: bool, whole: nat, fraction: bool) -> int {
    let m = ((whole % 3600 + 30) / 60) as int;
    if is_below_zero(negative, whole, fraction) {
        -m
    } else {
        m
    }
}

/// The offset text that the sunrise provider takes, for an offset of
/// `whole` seconds (plus a fraction of a second where `fraction`), below
/// zero where `negative` and not zero: `HOURS:MINUTES`, with a `0` put
/// before it where the offset is under ten hours, a `0` put after it where
/// the offset is a whole number of hours, and the sign in front.
pub open spec fn offset_text(negative: bool, whole: nat, fraction: bool) -> Seq<char> {
    let body = digits_of(whole / 3600) + ":"@ + signed_digits(minute_part(negative, whole, fraction));
    let padded = if whole < 36000 {
        "0"@ + body
    } else {
        body
    };
    let closed = if whole % 3600 == 0 && !fraction {
        padded + "0"@
    } else {
        padded
    };
    if is_below_zero(negative, whole, fraction) {
        "-"@ + closed
    } else {
        "+"@ + closed
    }
}

/// The offset text for an offset of `seconds`, any JSON number, where the
/// whole part of its size fits in an `i64`.
pub open spec fn offset_of(seconds: Seq<char>) -> Option<Seq<char>> {
    match number_parts(seconds) {
        Some(p) => if whole_part(p.1, p.2) <= i64::MAX {
            Some(offset_text(p.0, whole_part(p.1, p.2) as nat, has_fraction(p.1, p.2)))
        } else {
            None
        },
        None => None,
    }
}

/// Formats an offset given by its sign, the whole seconds of its size and
/// whether a fraction of a second is left, as `offset_text` says.
pub fn offset_from_parts(negative: bool, whole: u64, fraction: bool) -> (r: String)
    ensures
        r@ == offset_text(negative, whole as nat, fraction),
{
    let below = negative && (whole > 0 || fraction);
    let rounded: u64 = (whole % 3600 + 30) / 60;
    let minutes: i64 = if below {
        -(rounded as i64)
    } else {
        rounded as i64
    };
    let mut body = String::new();
    push_digits(&mut body, whole / 3600);
    body.append(":");
    push_signed(&mut body, minutes);
    let padded = if whole < 36000 {
        String::from_str("0").concat(body.as_str())
    } else {
        body
    };
    let mut closed = padded;
    if whole % 3600 == 0 && !fraction {
        closed.append("0");
    }
    let sign = if below {
        String::from_str("-")
    } else {
        String::from_str("+")
    };
    let r = sign.concat(closed.as_str());
    assert(r@ =~= offset_text(negative, whole as nat, fraction));
    r
}

/// Formats a UTC offset given in seconds, as a JSON number (`19800`,
/// `-12600.0`, `1.98e4`), as the sunrise provider's `[+-]HH:MM` text. None
/// where the text is no JSON number, or the offset is too large for its
/// whole seconds to fit in an `i64`.
pub fn format_offset(seconds: &str) -> (r: Option<String>)
    ensures
        r.is_some() == offset_of(seconds@).is_some(),
        r.is_some() ==> r.unwrap()@ == offset_of(seconds@).unwrap(),
{
    match parse_number(seconds) {
        Some((negative, digits, shift)) => {
            match whole_and_fraction(digits.as_str(), shift) {
                Some((whole, fraction)) => Some(offset_from_parts(negative, whole, fraction)),
                None => None,
            }
        },
        None => None,
    }
}

/// An offset below zero whose fraction of an hour rounds to a minute or
/// more has its minutes written with a minus sign of their own: the
/// fraction keeps the sign of the offset.
pub proof fn negative_fraction_keeps_sign(whole: nat, fraction: bool)
    requires
        minute_part(true, whole, fraction) != 0,
    ensures
        minute_part(true, whole, fraction) < 0,
        signed_digits(minute_part(true, whole, fraction))[0] == '-',
{
}

} // verus!
