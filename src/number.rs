use vstd::prelude::*;

use crate::text::{
    all_digits, digits_value, digits_value_of, first_index, find_char, integer_of, integer_value_of,
    is_digit, is_digit_run,
};

verus! {

pub open spec fn is_exponent_mark(c: char) -> bool {
    c == 'e' || c == 'E'
}

/// Where the first `e` or `E` stands in `t`; the length of `t` where none does.
pub open spec fn exponent_index(t: Seq<char>) -> int
    decreases t.len(),
{
    if t.len() == 0 {
        0
    } else if is_exponent_mark(t[0]) {
        0
    } else {
        1 + exponent_index(t.drop_first())
    }
}

/// The value of an exponent: an integer numeral, or digits after a `+`,
/// whose magnitude fits in an `i64`.
pub open spec fn exponent_of(t: Seq<char>) -> Option<int> {
    if t.len() > 0 && t[0] == '+' {
        let m = t.drop_first();
        if all_digits(m) && digits_value(m) <= i64::MAX {
            Some(digits_value(m))
        } else {
            None
        }
    } else {
        integer_of(t)
    }
}

/// A JSON number (`-?D+(.D+)?([eE][+-]?D+)?`, leading zeros allowed) taken
/// apart: whether it has a minus sign, the digits of its mantissa without the
/// point, and the power of ten by which those digits are scaled. So `-1.25e3`
/// is `(true, "125", 1)`: minus 125 times ten.
pub open spec fn number_parts(t: Seq<char>) -> Option<(bool, Seq<char>, int)> {
    let negative = t.len() > 0 && t[0] == '-';
    let body = if negative {
        t.drop_first()
    } else {
        t
    };
    let ke = exponent_index(body);
    let mantissa = body.subrange(0, ke);
    let kd = first_index(mantissa, '.');
    let whole = mantissa.subrange(0, kd);
    let fraction = if kd < mantissa.len() {
        mantissa.subrange(kd + 1, mantissa.len() as int)
    } else {
        Seq::empty()
    };
    let exponent = if ke < body.len() {
        exponent_of(body.subrange(ke + 1, body.len() as int))
    } else {
        Some(0)
    };
    if all_digits(whole) && (kd == mantissa.len() || all_digits(fraction)) && exponent is Some {
        Some((negative, whole + fraction, exponent->Some_0 - fraction.len()))
    } else {
        None
    }
}

pub open spec fn pow10(n: nat) -> nat
    decreases n,
{
    if n == 0 {
        1
    } else {
        10 * pow10((n - 1) as nat)
    }
}

/// The whole part of `digits` scaled by ten to the `shift`.
pub open spec fn whole_part(digits: Seq<char>, shift: int) -> int {
    if shift >= 0 {
        digits_value(digits) * pow10(shift as nat)
    } else if -shift >= digits.len() {
        0
    } else {
        digits_value(digits.subrange(0, digits.len() + shift))
    }
}

/// Whether some character of `t` is not `0`.
pub open spec fn nonzero(t: Seq<char>) -> bool {
    exists|i: int| 0 <= i < t.len() && t[i] != '0'
}

/// Whether `digits` scaled by ten to the `shift` has a fraction.
pub open spec fn has_fraction(digits: Seq<char>, shift: int) -> bool {
    shift < 0 && nonzero(
        digits.subrange(if -shift >= digits.len() { 0 } else { digits.len() + shift }, digits.len() as int),
    )
}

proof fn lemma_exponent_index(t: Seq<char>, i: int)
    requires
        0 <= i <= t.len(),
        forall|j: int| 0 <= j < i ==> !is_exponent_mark(t[j]),
        i == t.len() || is_exponent_mark(t[i]),
    ensures
        exponent_index(t) == i,
    decreases i,
{
    if i > 0 {
        lemma_exponent_index(t.drop_first(), i - 1);
    }
}

proof fn lemma_pow10_positive(n: nat)
    ensures
        pow10(n) >= 1,
    decreases n,
{
    if n > 0 {
        lemma_pow10_positive((n - 1) as nat);
    }
}

proof fn lemma_pow10_split(a: nat, b: nat)
    ensures
        pow10(a + b) == pow10(a) * pow10(b),
    decreases b,
{
    if b == 0 {
        assert(pow10(0) == 1);
        assert(a + b == a);
    } else {
        lemma_pow10_split(a, (b - 1) as nat);
        assert((a + b - 1) as nat == a + (b - 1) as nat);
        assert(pow10(a + b) == 10 * pow10((a + b - 1) as nat));
        assert(pow10(a) * pow10(b) == pow10(a) * (10 * pow10((b - 1) as nat)));
        assert(pow10(a) * (10 * pow10((b - 1) as nat)) == 10 * (pow10(a) * pow10((b - 1) as nat)))
            by (nonlinear_arith);
    }
}

proof fn lemma_digits_value_nonnegative(t: Seq<char>)
    requires
        forall|i: int| 0 <= i < t.len() ==> is_digit(#[trigger] t[i]),
    ensures
        digits_value(t) >= 0,
    decreases t.len(),
{
    if t.len() > 0 {
        lemma_digits_value_nonnegative(t.drop_last());
    }
}

/// Where the first `e` or `E` stands in `s`; its length where none does.
pub fn find_exponent(s: &str) -> (r: usize)
    ensures
        r as int == exponent_index(s@),
        r <= s@.len(),
{
    let n = s.unicode_len();
    let mut i: usize = 0;
    while i < n
        invariant
            n == s@.len(),
            i <= n,
            forall|j: int| 0 <= j < i ==> !is_exponent_mark(s@[j]),
        decreases n - i,
    {
        let c = s.get_char(i);
        if c == 'e' || c == 'E' {
            proof {
                lemma_exponent_index(s@, i as int);
            }
            return i;
        }
        i += 1;
    }
    proof {
        lemma_exponent_index(s@, i as int);
    }
    i
}

/// The value of the exponent `s`.
pub fn exponent_value(s: &str) -> (r: Option<i64>)
    ensures
        r.is_some() == exponent_of(s@).is_some(),
        r.is_some() ==> r.unwrap() as int == exponent_of(s@).unwrap(),
{
    let n = s.unicode_len();
    if n > 0 && s.get_char(0) == '+' {
        let m = s.substring_char(1, n);
        assert(m@ =~= s@.drop_first());
        match digits_value_of(m) {
            Some(v) => Some(v as i64),
            None => None,
        }
    } else {
        integer_value_of(s)
    }
}

/// Takes the JSON number `s` apart, as `number_parts` says.
pub fn parse_number(s: &str) -> (r: Option<(bool, String, i128)>)
    ensures
        r.is_some() == number_parts(s@).is_some(),
        r matches Some(p) ==> number_parts(s@) == Some((p.0, p.1@, p.2 as int)),
{
    let n = s.unicode_len();
    let negative = n > 0 && s.get_char(0) == '-';
    let start: usize = if negative {
        1
    } else {
        0
    };
    let body = s.substring_char(start, n);
    assert(negative ==> body@ =~= s@.drop_first());
    assert(!negative ==> body@ =~= s@);
    let bn = body.unicode_len();
    let ke = find_exponent(body);
    let mantissa = body.substring_char(0, ke);
    let mn = mantissa.unicode_len();
    let kd = find_char(mantissa, '.');
    let whole = mantissa.substring_char(0, kd);
    let fraction = if kd < mn {
        mantissa.substring_char(kd + 1, mn)
    } else {
        ""
    };
    assert(kd == mn ==> fraction@ =~= Seq::<char>::empty()) by {
        if kd == mn {
            reveal_strlit("");
            assert(fraction@.len() == 0);
        }
    };
    let exponent = if ke < bn {
        exponent_value(body.substring_char(ke + 1, bn))
    } else {
        Some(0i64)
    };
    if !is_digit_run(whole) {
        return None;
    }
    if kd < mn && !is_digit_run(fraction) {
        return None;
    }
    match exponent {
        Some(e) => {
            let digits = String::from_str(whole).concat(fraction);
            let shift: i128 = e as i128 - fraction.unicode_len() as i128;
            Some((negative, digits, shift))
        },
        None => None,
    }
}

/// Whether some character of `s` is not `0`.
pub fn has_nonzero(s: &str) -> (r: bool)
    ensures
        r == nonzero(s@),
{
    let n = s.unicode_len();
    let mut i: usize = 0;
    while i < n
        invariant
            n == s@.len(),
            i <= n,
            forall|j: int| 0 <= j < i ==> s@[j] == '0',
        decreases n - i,
    {
        if s.get_char(i) != '0' {
            return true;
        }
        i += 1;
    }
    false
}

/// The whole part of the decimal digits `digits` scaled by ten to the
/// `shift`, and whether a fraction is left, where the whole part fits in an
/// `i64`.
pub fn whole_and_fraction(digits: &str, shift: i128) -> (r: Option<(u64, bool)>)
    requires
        all_digits(digits@),
    ensures
        r.is_some() == (whole_part(digits@, shift as int) <= i64::MAX),
        r matches Some(p) ==> p.0 as int == whole_part(digits@, shift as int) && p.1 == has_fraction(
            digits@,
            shift as int,
        ),
{
    let n = digits.unicode_len();
    proof {
        lemma_digits_value_nonnegative(digits@);
    }
    if shift >= 0 {
        let v = match digits_value_of(digits) {
            Some(v) => v,
            None => {
                proof {
                    lemma_pow10_positive(shift as nat);
                    assert(digits_value(digits@) * pow10(shift as nat) >= digits_value(digits@))
                        by (nonlinear_arith)
                        requires
                            digits_value(digits@) >= 0,
                            pow10(shift as nat) >= 1,
                    ;
                }
                return None;
            },
        };
        if v == 0 {
            return Some((0, false));
        }
        let mut acc: u64 = v;
        let mut j: i128 = 0;
        assert(pow10(0) == 1);
        assert(pow10(j as nat) == 1);
        assert(v as int * pow10(j as nat) == v as int);
        while j < shift
            invariant
                0 <= j <= shift,
                acc as int == v as int * pow10(j as nat),
                acc <= i64::MAX,
                v >= 1,
                v as int == digits_value(digits@),
            decreases shift - j,
        {
            if acc > 922337203685477580u64 {
                proof {
                    let rest = (shift - j - 1) as nat;
                    lemma_pow10_split(j as nat, (rest + 1) as nat);
                    lemma_pow10_positive(rest);
                    assert(pow10((rest + 1) as nat) == 10 * pow10(rest));
                    assert(shift as nat == j as nat + (rest + 1) as nat);
                    assert(v as int * pow10(shift as nat) == acc as int * pow10((rest + 1) as nat))
                        by (nonlinear_arith)
                        requires
                            pow10(shift as nat) == pow10(j as nat) * pow10((rest + 1) as nat),
                            acc as int == v as int * pow10(j as nat),
                    ;
                    assert(acc as int * (10 * pow10(rest)) >= acc as int * 10) by (nonlinear_arith)
                        requires
                            pow10(rest) >= 1,
                            acc >= 0,
                    ;
                }
                return None;
            }
            proof {
                lemma_pow10_split(j as nat, 1);
                assert(pow10(0) == 1);
                assert(pow10(1) == 10);
                assert(j as nat + 1 == (j + 1) as nat);
                assert(v as int * pow10(j as nat) * 10 == v as int * (pow10(j as nat) * 10))
                    by (nonlinear_arith);
            }
            acc = acc * 10;
            j = j + 1;
        }
        Some((acc, false))
    } else {
        let cut: usize = if shift <= -(n as i128) {
            0
        } else {
            (n as i128 + shift) as usize
        };
        let tail = digits.substring_char(cut, n);
        let fraction = has_nonzero(tail);
        if shift <= -(n as i128) {
            Some((0, fraction))
        } else {
            let head = digits.substring_char(0, cut);
            match digits_value_of(head) {
                Some(w) => Some((w, fraction)),
                None => {
                    proof {
                        assert(head@.len() > 0 ==> all_digits(head@)) by {
                            assert forall|i: int| 0 <= i < head@.len() implies is_digit(
                                #[trigger] head@[i],
                            ) by {
                                assert(head@[i] == digits@[i]);
                            }
                        }
                    }
                    None
                },
            }
        }
    }
}

} // verus!
