use vstd::prelude::*;

use crate::error::ServiceError;
use crate::number::{exponent_index, exponent_of, exponent_value, find_exponent};
use crate::text::{first_index, find_char, is_digit, is_digit_run};

verus! {

/// A geographic position. Latitude and longitude are held as the plain
/// decimal numerals that are sent to the providers (`34`, `-12.5`); their
/// range is not checked.
pub struct Coordinates {
    pub lat: String,
    pub lon: String,
}

/// Whether every character of `t` is a decimal digit (`t` may be empty).
pub open spec fn only_digits(t: Seq<char>) -> bool {
    forall|i: int| 0 <= i < t.len() ==> is_digit(#[trigger] t[i])
}

/// A numeral as a float literal writes it (`34`, `+34`, `-12.5`, `.5`, `5.`,
/// `1e5`, `2.5E-3`) taken apart: whether it has a minus sign, the digits of
/// its mantissa without the point, and the power of ten by which those
/// digits are scaled. The mantissa needs a digit on one side of the point.
pub open spec fn numeral_parts(t: Seq<char>) -> Option<(bool, Seq<char>, int)> {
    let signed = t.len() > 0 && (t[0] == '-' || t[0] == '+');
    let body = if signed {
        t.drop_first()
    } else {
        t
    };
    let ke = exponent_index(body);
    let mantissa = body.subrange(0, ke);
    let kd = first_index(mantissa, '.');
    let whole = mantissa.subrange(0, kd);
    let fraction = if kd < mantissa.len() {
        mantissa.subrange(kd + 1, mantissa.len() as int)
    } else {
        Seq::empty()
    };
    let exponent = if ke < body.len() {
        exponent_of(body.subrange(ke + 1, body.len() as int))
    } else {
        Some(0)
    };
    if only_digits(whole) && only_digits(fraction) && whole.len() + fraction.len() > 0
        && exponent is Some {
        Some((signed && t[0] == '-', whole + fraction, exponent->Some_0 - fraction.len()))
    } else {
        None
    }
}

pub open spec fn zeros(k: int) -> Seq<char> {
    Seq::new(if k > 0 { k as nat } else { 0 }, |i: int| '0')
}

pub open spec fn strip_leading_zeros(t: Seq<char>) -> Seq<char>
    decreases t.len(),
{
    if t.len() > 0 && t[0] == '0' {
        strip_leading_zeros(t.drop_first())
    } else {
        t
    }
}

pub open spec fn strip_trailing_zeros(t: Seq<char>) -> Seq<char>
    decreases t.len(),
{
    if t.len() > 0 && t.last() == '0' {
        strip_trailing_zeros(t.drop_last())
    } else {
        t
    }
}

/// The plain numeral for `digits` scaled by ten to the `shift`: no exponent,
/// no leading zeros in the whole part (`0` where it is empty), no trailing
/// zeros in the fraction, no point where no fraction is left, and a `-`
/// where `negative`. So `+34.50` gives `34.5`, `.5` gives `0.5` and `1e5`
/// gives `100000`.
pub open spec fn plain_numeral(negative: bool, digits: Seq<char>, shift: int) -> Seq<char> {
    let n = digits.len() as int;
    let p = n + shift;
    let whole_raw = if p <= 0 {
        Seq::empty()
    } else if p >= n {
        digits + zeros(p - n)
    } else {
        digits.subrange(0, p)
    };
    let fraction_raw = if p <= 0 {
        zeros(-p) + digits
    } else if p >= n {
        Seq::empty()
    } else {
        digits.subrange(p, n)
    };
    let whole = strip_leading_zeros(whole_raw);
    let fraction = strip_trailing_zeros(fraction_raw);
    (if negative {
        seq!['-']
    } else {
        Seq::empty()
    }) + (if whole.len() == 0 {
        seq!['0']
    } else {
        whole
    }) + (if fraction.len() == 0 {
        Seq::empty()
    } else {
        seq!['.'] + fraction
    })
}

/// The largest distance, in digits, that a coordinate's exponent may move
/// its point; beyond it no float holds the value.
pub const MAX_POINT_SHIFT: i128 = 400;

/// The plain numeral of the coordinate `t`, where `t` is a numeral whose
/// point moves no further than `MAX_POINT_SHIFT` digits from its digits.
pub open spec fn coordinate_of(t: Seq<char>) -> Option<Seq<char>> {
    match numeral_parts(t) {
        Some(p) => if -400 <= p.1.len() + p.2 <= p.1.len() + 400 {
            Some(plain_numeral(p.0, p.1, p.2))
        } else {
            None
        },
        None => None,
    }
}

fn only_digits_text(s: &str) -> (r: bool)
    ensures
        r == only_digits(s@),
{
    s.unicode_len() == 0 || is_digit_run(s)
}

/// Takes the numeral `s` apart, as `numeral_parts` says.
pub fn parse_numeral(s: &str) -> (r: Option<(bool, String, i128)>)
    ensures
        r.is_some() == numeral_parts(s@).is_some(),
        r matches Some(p) ==> numeral_parts(s@) == Some((p.0, p.1@, p.2 as int)),
{
    let n = s.unicode_len();
    let first = if n > 0 {
        s.get_char(0)
    } else {
        ' '
    };
    let signed = n > 0 && (first == '-' || first == '+');
    let start: usize = if signed {
        1
    } else {
        0
    };
    let body = s.substring_char(start, n);
    assert(signed ==> body@ =~= s@.drop_first());
    assert(!signed ==> body@ =~= s@);
    let bn = body.unicode_len();
    let ke = find_exponent(body);
    let mantissa = body.substring_char(0, ke);
    let mn = mantissa.unicode_len();
    let kd = find_char(mantissa, '.');
    let whole = mantissa.substring_char(0, kd);
    let fraction = if kd < mn {
        mantissa.substring_char(kd + 1, mn)
    } else {
        ""
    };
    assert(kd == mn ==> fraction@ =~= Seq::<char>::empty()) by {
        if kd == mn {
            reveal_strlit("");
            assert(fraction@.len() == 0);
        }
    };
    let exponent = if ke < bn {
        exponent_value(body.substring_char(ke + 1, bn))
    } else {
        Some(0i64)
    };
    if !only_digits_text(whole) || !only_digits_text(fraction) {
        return None;
    }
    if whole.unicode_len() == 0 && fraction.unicode_len() == 0 {
        return None;
    }
    match exponent {
        Some(e) => {
            let digits = String::from_str(whole).concat(fraction);
            let shift: i128 = e as i128 - fraction.unicode_len() as i128;
            Some((signed && first == '-', digits, shift))
        },
        None => None,
    }
}

/// Appends `k` zeros.
fn push_zeros(out: &mut String, k: i128)
    requires
        k <= 1000,
    ensures
        final(out)@ == old(out)@ + zeros(k as int),
{
    let ghost start = out@;
    let mut i: i128 = 0;
    while i < k
        invariant
            0 <= i,
            k > 0 ==> i <= k,
            k <= 0 ==> i == 0,
            k <= 1000,
            out@ == start + zeros(i as int),
        decreases k - i,
    {
        out.append("0");
        proof {
            reveal_strlit("0");
            assert(start + zeros(i + 1) =~= start + zeros(i as int) + "0"@);
        }
        i += 1;
    }
    if k > 0 {
        assert(i == k);
    } else {
        assert(zeros(k as int) =~= zeros(0));
        assert(zeros(i as int) =~= zeros(0));
    }
}

/// `s` without its leading zeros.
fn without_leading_zeros(s: &str) -> (r: &str)
    ensures
        r@ == strip_leading_zeros(s@),
{
    let n = s.unicode_len();
    let mut i: usize = 0;
    assert(s@.subrange(0, n as int) =~= s@);
    while i < n && s.get_char(i) == '0'
        invariant
            n == s@.len(),
            i <= n,
            strip_leading_zeros(s@) == strip_leading_zeros(s@.subrange(i as int, n as int)),
        decreases n - i,
    {
        assert(s@.subrange(i as int, n as int).drop_first() =~= s@.subrange(i + 1, n as int));
        i += 1;
    }
    let r = s.substring_char(i, n);
    r
}

/// `s` without its trailing zeros.
fn without_trailing_zeros(s: &str) -> (r: &str)
    ensures
        r@ == strip_trailing_zeros(s@),
{
    let n = s.unicode_len();
    let mut i: usize = n;
    assert(s@.subrange(0, n as int) =~= s@);
    while i > 0 && s.get_char(i - 1) == '0'
        invariant
            n == s@.len(),
            i <= n,
            strip_trailing_zeros(s@) == strip_trailing_zeros(s@.subrange(0, i as int)),
        decreases i,
    {
        assert(s@.subrange(0, i as int).drop_last() =~= s@.subrange(0, i - 1));
        i -= 1;
    }
    s.substring_char(0, i)
}

/// Writes the plain numeral of `digits` scaled by ten to the `shift`.
pub fn plain_numeral_text(negative: bool, digits: &str, shift: i128) -> (r: String)
    requires
        -400 <= digits@.len() + shift <= digits@.len() + 400,
    ensures
        r@ == plain_numeral(negative, digits@, shift as int),
{
    let n = digits.unicode_len();
    let p: i128 = n as i128 + shift;
    let mut whole_raw = String::new();
    let mut fraction_raw = String::new();
    if p <= 0 {
        push_zeros(&mut fraction_raw, -p);
        fraction_raw.append(digits);
    } else if p >= n as i128 {
        whole_raw.append(digits);
        push_zeros(&mut whole_raw, p - n as i128);
    } else {
        whole_raw.append(digits.substring_char(0, p as usize));
        fraction_raw.append(digits.substring_char(p as usize, n));
    }
    proof {
        reveal_strlit("");
    }
    let whole = without_leading_zeros(whole_raw.as_str());
    let fraction = without_trailing_zeros(fraction_raw.as_str());
    let mut out = if negative {
        String::from_str("-")
    } else {
        String::new()
    };
    if whole.unicode_len() == 0 {
        out.append("0");
    } else {
        out.append(whole);
    }
    if fraction.unicode_len() > 0 {
        out.append(".");
        out.append(fraction);
    }
    proof {
        reveal_strlit("-");
        reveal_strlit("0");
        reveal_strlit(".");
    }
    assert(out@ =~= plain_numeral(negative, digits@, shift as int));
    out
}

impl Coordinates {
    /// The position with the given numerals, each written as its plain
    /// numeral; an invalid input where either is no numeral, or its
    /// exponent moves the point too far.
    pub fn new(lat: &str, lon: &str) -> (r: Result<Coordinates, ServiceError>)
        ensures
            r is Ok == (coordinate_of(lat@) is Some && coordinate_of(lon@) is Some),
            r matches Ok(c) ==> c.lat@ == coordinate_of(lat@)->Some_0 && c.lon@ == coordinate_of(
                lon@,
            )->Some_0,
            r matches Err(e) ==> e == ServiceError::InvalidInput,
    {
        let lat_text = match coordinate_text(lat) {
            Some(t) => t,
            None => {
                return Err(ServiceError::InvalidInput);
            },
        };
        let lon_text = match coordinate_text(lon) {
            Some(t) => t,
            None => {
                return Err(ServiceError::InvalidInput);
            },
        };
        Ok(Coordinates { lat: lat_text, lon: lon_text })
    }
}

/// The plain numeral of the coordinate `s`, as `coordinate_of` says.
pub fn coordinate_text(s: &str) -> (r: Option<String>)
    ensures
        r.is_some() == coordinate_of(s@).is_some(),
        r.is_some() ==> r.unwrap()@ == coordinate_of(s@).unwrap(),
{
    match parse_numeral(s) {
        Some((negative, digits, shift)) => {
            let n = digits.unicode_len() as i128;
            if -MAX_POINT_SHIFT - n <= shift && shift <= MAX_POINT_SHIFT {
                Some(plain_numeral_text(negative, digits.as_str(), shift))
            } else {
                None
            }
        },
        None => None,
    }
}

/// The latitude and longitude texts of `LAT,LON`: what stands before the
/// first comma, and what stands between it and the next comma (or the end).
pub open spec fn coordinate_parts(s: Seq<char>) -> Option<(Seq<char>, Seq<char>)> {
    let k = first_index(s, ',');
    if k == s.len() {
        None
    } else {
        let rest = s.subrange(k + 1, s.len() as int);
        Some((s.subrange(0, k), rest.subrange(0, first_index(rest, ','))))
    }
}

/// Reads a position given as `LAT,LON`. Text after a second comma is
/// ignored; a text without a comma, or with a part that is no numeral, is an
/// invalid input.
pub fn parse_coordinates(text: &str) -> (r: Result<Coordinates, ServiceError>)
    ensures
        r is Ok == (coordinate_parts(text@) matches Some(p) && coordinate_of(p.0) is Some
            && coordinate_of(p.1) is Some),
        r matches Ok(c) ==> coordinate_parts(text@) matches Some(p) && c.lat@ == coordinate_of(
            p.0,
        )->Some_0 && c.lon@ == coordinate_of(p.1)->Some_0,
        r matches Err(e) ==> e == ServiceError::InvalidInput,
{
    let n = text.unicode_len();
    let k = find_char(text, ',');
    if k == n {
        return Err(ServiceError::InvalidInput);
    }
    let lat = text.substring_char(0, k);
    let rest = text.substring_char(k + 1, n);
    let m = find_char(rest, ',');
    let lon = rest.substring_char(0, m);
    Coordinates::new(lat, lon)
}

} // verus!
