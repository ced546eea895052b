//! The ffmpeg time-duration token syntax, over integer microseconds.
//!
//! Two forms are accepted: `[-][H:]MM:SS[.ms]` (hours unbounded, minutes
//! and seconds one or two digits, the fraction read as a whole number of
//! milliseconds, as the supervised tool reads it) and `[-]N[.frac][s|ms|us]`
//! (unit defaulting to seconds, any other unit rejecting the token).  In
//! the second form `.frac` is a decimal fraction: the value is
//! `(N + frac/10^k) × unit`, its magnitude truncated to whole
//! microseconds — exact for up to six fraction digits in seconds, the
//! tool's own precision.
//!
//! Values are exact integer microseconds.  A token whose magnitude
//! exceeds [`MAX_DURATION_US`] is rejected, so that every later
//! computation stays inside `i64`.

use vstd::prelude::*;

use crate::strutil::all_digits;
use crate::strutil::all_digits_check;
use crate::strutil::digits_val;
use crate::strutil::find_char;
use crate::strutil::find_from;
use crate::strutil::lemma_digits_split;
use crate::strutil::lemma_digits_val_bound;
use crate::strutil::lemma_digits_val_nonneg;
use crate::strutil::lemma_find_from_bounds;
use crate::strutil::lemma_pow10_add;
use crate::strutil::lemma_pow10_pos;
use crate::strutil::parse_u64_digits;
use crate::strutil::pow10;
use vstd::arithmetic::div_mod::lemma_fundamental_div_mod_converse;

verus! {

/// Magnitude bound on accepted durations, in microseconds (about 126
/// years), far below `i64::MAX` so that clipping arithmetic cannot
/// overflow.
pub const MAX_DURATION_US: i64 = 4_000_000_000_000_000;

/// Value in microseconds of a `[-][H:]MM:SS[.ms]` token, when `s` has
/// that shape.
pub open spec fn colon_value_us(s: Seq<char>) -> Option<int> {
    let neg = s.len() > 0 && s[0] == '-';
    let body = if neg {
        s.skip(1)
    } else {
        s
    };
    let c1 = find_from(body, ':', 0);
    if c1 == body.len() {
        None
    } else {
        let c2 = find_from(body, ':', c1 + 1);
        if c2 != body.len() && find_from(body, ':', c2 + 1) != body.len() {
            None
        } else {
            let h_str: Option<Seq<char>> = if c2 == body.len() {
                None
            } else {
                Some(body.take(c1))
            };
            let mm_str = if c2 == body.len() {
                body.take(c1)
            } else {
                body.subrange(c1 + 1, c2)
            };
            let rest = if c2 == body.len() {
                body.skip(c1 + 1)
            } else {
                body.skip(c2 + 1)
            };
            let dot = find_from(rest, '.', 0);
            let ss_str = rest.take(dot);
            let frac: Option<Seq<char>> = if dot == rest.len() {
                None
            } else {
                Some(rest.skip(dot + 1))
            };
            if (match h_str {
                Some(h) => h.len() > 0 && all_digits(h),
                None => true,
            }) && 1 <= mm_str.len() <= 2 && all_digits(mm_str) && 1 <= ss_str.len() <= 2
                && all_digits(ss_str) && (match frac {
                Some(f) => f.len() > 0 && all_digits(f),
                None => true,
            }) {
                let h_val = match h_str {
                    Some(h) => digits_val(h),
                    None => 0,
                };
                let f_val = match frac {
                    Some(f) => digits_val(f),
                    None => 0,
                };
                let total = (h_val * 3600 + digits_val(mm_str) * 60 + digits_val(ss_str))
                    * 1_000_000 + f_val * 1000;
                Some(
                    if neg {
                        -total
                    } else {
                        total
                    },
                )
            } else {
                None
            }
        }
    }
}

/// Whether `c` can belong to a unit suffix.
pub open spec fn is_unit_char(c: char) -> bool {
    c == 's' || c == 'm' || c == 'u'
}

/// Start of the maximal unit-letter suffix of `s` before `i`.
pub open spec fn unit_start(s: Seq<char>, i: int) -> int
    decreases i,
{
    if i <= 0 {
        0
    } else if is_unit_char(s[i - 1]) {
        unit_start(s, i - 1)
    } else {
        i
    }
}

/// Microseconds per unit named by `suffix`, when it names one.  The empty
/// suffix means seconds.
pub open spec fn unit_multiplier(suffix: Seq<char>) -> Option<int> {
    if suffix.len() == 0 {
        Some(1_000_000)
    } else if suffix == seq!['s'] {
        Some(1_000_000)
    } else if suffix == seq!['m', 's'] {
        Some(1000)
    } else if suffix == seq!['u', 's'] {
        Some(1)
    } else {
        None
    }
}

/// Value in microseconds of a `[-]N[.frac][unit]` token, when `s` has
/// that shape: `(N + frac/10^k) × unit` with `k` fraction digits, the
/// magnitude truncated to whole microseconds.  The truncation loses
/// nothing for up to six fraction digits in seconds (three in
/// milliseconds), the supervised tool's own precision.
pub open spec fn plain_value_us(s: Seq<char>) -> Option<int> {
    let neg = s.len() > 0 && s[0] == '-';
    let body = if neg {
        s.skip(1)
    } else {
        s
    };
    let u = unit_start(body, body.len() as int);
    let num = body.take(u);
    match unit_multiplier(body.skip(u)) {
        None => None,
        Some(mult) => {
            let dot = find_from(num, '.', 0);
            let int_str = num.take(dot);
            let frac: Option<Seq<char>> = if dot == num.len() {
                None
            } else {
                Some(num.skip(dot + 1))
            };
            if int_str.len() > 0 && all_digits(int_str) && (match frac {
                Some(f) => f.len() > 0 && all_digits(f),
                None => true,
            }) {
                let frac_us = match frac {
                    Some(f) => (digits_val(f) * mult) / pow10(f.len()),
                    None => 0,
                };
                let total = digits_val(int_str) * mult + frac_us;
                Some(
                    if neg {
                        -total
                    } else {
                        total
                    },
                )
            } else {
                None
            }
        },
    }
}

/// Value of a duration token: the colon form when it matches, else the
/// plain form, else nothing.
pub open spec fn spec_duration_us(s: Seq<char>) -> Option<int> {
    match colon_value_us(s) {
        Some(v) => Some(v),
        None => plain_value_us(s),
    }
}

} // verus!

verus! {

/// Largest hour count whose microsecond value can stay in range.
const MAX_HOURS: u64 = 1_111_111;

/// Largest fraction value whose millisecond contribution can stay in
/// range.
const MAX_FRAC_MS: u64 = 4_000_000_000_000;

/// Upper bound of a digit string of at most two digits.
proof fn lemma_two_digits_bound(s: Seq<char>)
    requires
        all_digits(s),
        1 <= s.len() <= 2,
    ensures
        0 <= digits_val(s) <= 99,
{
    if s.len() == 1 {
        assert(s.drop_last().len() == 0);
        assert(digits_val(s.drop_last()) == 0);
    } else {
        assert(s.drop_last().len() == 1);
        assert(s.drop_last().drop_last().len() == 0);
        assert(digits_val(s.drop_last().drop_last()) == 0);
        assert(s.drop_last().last() == s[0]);
        assert(digits_val(s.drop_last()) == s[0] as int - '0' as int);
    }
}

/// Parses the `[-][H:]MM:SS[.ms]` form of a duration token.
fn parse_colon(value: &str) -> (r: Option<i64>)
    ensures
        match colon_value_us(value@) {
            Some(v) => (-MAX_DURATION_US <= v <= MAX_DURATION_US ==> r == Some(v as i64)) && (!(
            -MAX_DURATION_US <= v <= MAX_DURATION_US) ==> r is None),
            None => r is None,
        },
{
    let len: usize = value.unicode_len();
    let neg = len > 0 && value.get_char(0) == '-';
    let o: usize = if neg {
        1
    } else {
        0
    };
    let body = value.substring_char(o, len);
    proof {
        if neg {
            assert(body@ =~= value@.skip(1));
        } else {
            assert(body@ =~= value@);
        }
    }
    let blen: usize = body.unicode_len();
    let c1 = find_char(body, ':', 0);
    if c1 == blen {
        return None;
    }
    let c2 = find_char(body, ':', c1 + 1);
    if c2 != blen {
        let c3 = find_char(body, ':', c2 + 1);
        if c3 != blen {
            return None;
        }
    }
    let (mm_str, rest): (&str, &str) = if c2 == blen {
        (body.substring_char(0, c1), body.substring_char(c1 + 1, blen))
    } else {
        (body.substring_char(c1 + 1, c2), body.substring_char(c2 + 1, blen))
    };
    proof {
        if c2 == blen {
            assert(mm_str@ =~= body@.take(c1 as int));
            assert(rest@ =~= body@.skip(c1 as int + 1));
        } else {
            assert(mm_str@ =~= body@.subrange(c1 as int + 1, c2 as int));
            assert(rest@ =~= body@.skip(c2 as int + 1));
        }
    }
    let ghost spec_h: Option<Seq<char>> = if c2 == blen as int {
        None
    } else {
        Some(body@.take(c1 as int))
    };
    let h_val: u64 = if c2 == blen {
        0
    } else {
        let h_str = body.substring_char(0, c1);
        proof {
            assert(h_str@ =~= body@.take(c1 as int));
        }
        match parse_u64_digits(h_str) {
            Some(h) => h,
            None => {
                proof {
                    if colon_value_us(value@) is Some {
                        // the hour count alone overflows a u64, so the
                        // value is far beyond the accepted magnitude
                        lemma_digits_val_nonneg(h_str@);
                        colon_magnitude_from_hours(value@, digits_val(h_str@));
                    }
                }
                return None;
            },
        }
    };
    if h_val > MAX_HOURS {
        proof {
            if colon_value_us(value@) is Some {
                colon_magnitude_from_hours(value@, h_val as int);
            }
        }
        return None;
    }
    let mlen: usize = mm_str.unicode_len();
    if mlen == 0 || mlen > 2 {
        return None;
    }
    let mm = match parse_u64_digits(mm_str) {
        Some(m) => m,
        None => {
            proof {
                if all_digits(mm_str@) {
                    lemma_two_digits_bound(mm_str@);
                }
            }
            return None;
        },
    };
    let rlen: usize = rest.unicode_len();
    let dot = find_char(rest, '.', 0);
    let ss_str = rest.substring_char(0, dot);
    proof {
        assert(ss_str@ =~= rest@.take(dot as int));
    }
    let slen: usize = ss_str.unicode_len();
    if slen == 0 || slen > 2 {
        return None;
    }
    let ss = match parse_u64_digits(ss_str) {
        Some(s) => s,
        None => {
            proof {
                if all_digits(ss_str@) {
                    lemma_two_digits_bound(ss_str@);
                }
            }
            return None;
        },
    };
    let f_val: u64 = if dot == rlen {
        0
    } else {
        let f_str = rest.substring_char(dot + 1, rlen);
        proof {
            assert(f_str@ =~= rest@.skip(dot as int + 1));
        }
        match parse_u64_digits(f_str) {
            Some(f) => f,
            None => {
                proof {
                    if colon_value_us(value@) is Some {
                        lemma_digits_val_nonneg(f_str@);
                        colon_magnitude_from_frac(value@, digits_val(f_str@));
                    }
                }
                return None;
            },
        }
    };
    if f_val > MAX_FRAC_MS {
        proof {
            if colon_value_us(value@) is Some {
                colon_magnitude_from_frac(value@, f_val as int);
            }
        }
        return None;
    }
    proof {
        lemma_two_digits_bound(mm_str@);
        lemma_two_digits_bound(ss_str@);
    }
    let secs: u64 = h_val * 3600 + mm * 60 + ss;
    let total: u64 = secs * 1_000_000 + f_val * 1000;
    if total > 4_000_000_000_000_000u64 {
        return None;
    }
    let magnitude = total as i64;
    if neg {
        Some(-magnitude)
    } else {
        Some(magnitude)
    }
}

/// When the colon form matches, its magnitude is at least the hour
/// contribution.
proof fn colon_magnitude_from_hours(s: Seq<char>, h: int)
    requires
        colon_value_us(s) is Some,
        h >= 0,
        ({
            let neg = s.len() > 0 && s[0] == '-';
            let body = if neg {
                s.skip(1)
            } else {
                s
            };
            let c1 = find_from(body, ':', 0);
            let c2 = find_from(body, ':', c1 + 1);
            c2 != body.len() && digits_val(body.take(c1)) == h
        }),
    ensures
        colon_value_us(s).unwrap() >= h * 3_600_000_000 || colon_value_us(s).unwrap() <= -h
            * 3_600_000_000,
{
    let neg = s.len() > 0 && s[0] == '-';
    let body = if neg {
        s.skip(1)
    } else {
        s
    };
    let c1 = find_from(body, ':', 0);
    let c2 = find_from(body, ':', c1 + 1);
    let mm_str = body.subrange(c1 + 1, c2);
    let rest = body.skip(c2 + 1);
    let dot = find_from(rest, '.', 0);
    let ss_str = rest.take(dot);
    let f_val: int = if dot == rest.len() {
        0
    } else {
        digits_val(rest.skip(dot + 1))
    };
    lemma_digits_val_nonneg(mm_str);
    lemma_digits_val_nonneg(ss_str);
    if dot != rest.len() {
        lemma_digits_val_nonneg(rest.skip(dot + 1));
    }
    let total = (h * 3600 + digits_val(mm_str) * 60 + digits_val(ss_str)) * 1_000_000 + f_val
        * 1000;
    assert(total >= h * 3_600_000_000) by (nonlinear_arith)
        requires
            h >= 0,
            digits_val(mm_str) >= 0,
            digits_val(ss_str) >= 0,
            f_val >= 0,
            total == (h * 3600 + digits_val(mm_str) * 60 + digits_val(ss_str)) * 1_000_000 + f_val
                * 1000,
    ;
}

/// When the colon form matches, its magnitude is at least the fraction
/// contribution.
proof fn colon_magnitude_from_frac(s: Seq<char>, f: int)
    requires
        colon_value_us(s) is Some,
        f >= 0,
        ({
            let neg = s.len() > 0 && s[0] == '-';
            let body = if neg {
                s.skip(1)
            } else {
                s
            };
            let c1 = find_from(body, ':', 0);
            let c2 = find_from(body, ':', c1 + 1);
            let rest = if c2 == body.len() {
                body.skip(c1 + 1)
            } else {
                body.skip(c2 + 1)
            };
            let dot = find_from(rest, '.', 0);
            dot != rest.len() && digits_val(rest.skip(dot + 1)) == f
        }),
    ensures
        colon_value_us(s).unwrap() >= f * 1000 || colon_value_us(s).unwrap() <= -f * 1000,
{
    let neg = s.len() > 0 && s[0] == '-';
    let body = if neg {
        s.skip(1)
    } else {
        s
    };
    let c1 = find_from(body, ':', 0);
    let c2 = find_from(body, ':', c1 + 1);
    let h_val: int = if c2 == body.len() {
        0
    } else {
        digits_val(body.take(c1))
    };
    let mm_str = if c2 == body.len() {
        body.take(c1)
    } else {
        body.subrange(c1 + 1, c2)
    };
    let rest = if c2 == body.len() {
        body.skip(c1 + 1)
    } else {
        body.skip(c2 + 1)
    };
    let dot = find_from(rest, '.', 0);
    let ss_str = rest.take(dot);
    if c2 != body.len() {
        lemma_digits_val_nonneg(body.take(c1));
    }
    lemma_digits_val_nonneg(mm_str);
    lemma_digits_val_nonneg(ss_str);
    let total = (h_val * 3600 + digits_val(mm_str) * 60 + digits_val(ss_str)) * 1_000_000 + f
        * 1000;
    assert(total >= f * 1000) by (nonlinear_arith)
        requires
            h_val >= 0,
            digits_val(mm_str) >= 0,
            digits_val(ss_str) >= 0,
            f >= 0,
            total == (h_val * 3600 + digits_val(mm_str) * 60 + digits_val(ss_str)) * 1_000_000 + f
                * 1000,
    ;
}

} // verus!

verus! {

pub proof fn lemma_unit_start_bounds(s: Seq<char>, i: int)
    requires
        0 <= i <= s.len(),
    ensures
        0 <= unit_start(s, i) <= i,
        forall|j: int| unit_start(s, i) <= j < i ==> is_unit_char(s[j]),
        unit_start(s, i) > 0 ==> !is_unit_char(s[unit_start(s, i) - 1]),
    decreases i,
{
    if i > 0 && is_unit_char(s[i - 1]) {
        lemma_unit_start_bounds(s, i - 1);
    }
}

proof fn lemma_unit_start_between(s: Seq<char>, i: int, b: int)
    requires
        0 <= b <= i <= s.len(),
        forall|j: int| b <= j < i ==> is_unit_char(s[j]),
        b > 0 ==> !is_unit_char(s[b - 1]),
    ensures
        unit_start(s, i) == b,
    decreases i - b,
{
    if b < i {
        lemma_unit_start_between(s, i - 1, b);
    }
}

/// A token in the colon form never also carries the plain form.
proof fn lemma_forms_disjoint(s: Seq<char>)
    requires
        colon_value_us(s) is Some,
    ensures
        plain_value_us(s) is None,
{
    let neg = s.len() > 0 && s[0] == '-';
    let body = if neg {
        s.skip(1)
    } else {
        s
    };
    let c1 = find_from(body, ':', 0);
    lemma_find_from_bounds(body, ':', 0);
    assert(c1 < body.len());
    assert(body[c1] == ':');
    let u = unit_start(body, body.len() as int);
    lemma_unit_start_bounds(body, body.len() as int);
    if plain_value_us(s) is Some {
        assert(c1 < u) by {
            if c1 >= u {
                assert(is_unit_char(body[c1]));
            }
        }
        let num = body.take(u);
        assert(num[c1] == ':');
        let dot = find_from(num, '.', 0);
        lemma_find_from_bounds(num, '.', 0);
        let int_str = num.take(dot);
        if c1 < dot {
            assert(int_str[c1] == ':');
            assert(!all_digits(int_str));
        } else {
            assert(num[dot] == '.');
            assert(c1 != dot);
            let frac = num.skip(dot + 1);
            assert(frac[c1 - dot - 1] == ':');
            assert(!all_digits(frac));
        }
    }
}

/// Parses the `[-]N[.frac][unit]` form of a duration token.
fn parse_plain(value: &str) -> (r: Option<i64>)
    ensures
        match plain_value_us(value@) {
            Some(v) => (-MAX_DURATION_US <= v <= MAX_DURATION_US ==> r == Some(v as i64)) && (!(
            -MAX_DURATION_US <= v <= MAX_DURATION_US) ==> r is None),
            None => r is None,
        },
{
    let len: usize = value.unicode_len();
    let neg = len > 0 && value.get_char(0) == '-';
    let o: usize = if neg {
        1
    } else {
        0
    };
    let body = value.substring_char(o, len);
    proof {
        if neg {
            assert(body@ =~= value@.skip(1));
        } else {
            assert(body@ =~= value@);
        }
    }
    let blen: usize = body.unicode_len();
    let mut u: usize = blen;
    while u > 0 && is_unit_letter(body.get_char(u - 1))
        invariant
            blen == body@.len(),
            u <= blen,
            forall|j: int| u <= j < blen ==> is_unit_char(body@[j]),
        decreases u,
    {
        u = u - 1;
    }
    proof {
        lemma_unit_start_between(body@, blen as int, u as int);
    }
    let sl = blen - u;
    let mult: u64 = if sl == 0 {
        proof {
            assert(body@.skip(u as int) =~= Seq::<char>::empty());
        }
        1_000_000
    } else if sl == 1 && body.get_char(u) == 's' {
        proof {
            assert(body@.skip(u as int) =~= seq!['s']);
        }
        1_000_000
    } else if sl == 2 && body.get_char(u) == 'm' && body.get_char(u + 1) == 's' {
        proof {
            assert(body@.skip(u as int) =~= seq!['m', 's']);
        }
        1000
    } else if sl == 2 && body.get_char(u) == 'u' && body.get_char(u + 1) == 's' {
        proof {
            assert(body@.skip(u as int) =~= seq!['u', 's']);
        }
        1
    } else {
        proof {
            let suffix = body@.skip(u as int);
            assert(suffix.len() == sl);
            if sl == 1 {
                assert(suffix != seq!['s']) by {
                    assert(suffix[0] != 's');
                }
                assert(suffix != seq!['m', 's'] && suffix != seq!['u', 's']) by {
                    assert(suffix.len() != 2);
                }
            } else if sl == 2 {
                assert(suffix != seq!['s']) by {
                    assert(suffix.len() != 1);
                }
                if suffix[0] == 'm' {
                    assert(suffix != seq!['m', 's']) by {
                        assert(suffix[1] != 's');
                    }
                    assert(suffix != seq!['u', 's']) by {
                        assert(suffix[0] != 'u');
                    }
                } else {
                    assert(suffix != seq!['m', 's']) by {
                        assert(suffix[0] != 'm');
                    }
                    if suffix[0] == 'u' {
                        assert(suffix != seq!['u', 's']) by {
                            assert(suffix[1] != 's');
                        }
                    } else {
                        assert(suffix != seq!['u', 's']) by {
                            assert(suffix[0] != 'u');
                        }
                    }
                }
            } else {
                assert(suffix != seq!['s']) by {
                    assert(suffix.len() != 1);
                }
                assert(suffix != seq!['m', 's'] && suffix != seq!['u', 's']) by {
                    assert(suffix.len() != 2);
                }
            }
            assert(unit_multiplier(suffix) is None);
        }
        return None;
    };
    proof {
        assert(mult == 1 || mult == 1000 || mult == 1_000_000);
        assert(unit_multiplier(body@.skip(u as int)) == Some(mult as int));
    }
    let num = body.substring_char(0, u);
    proof {
        assert(num@ =~= body@.take(u as int));
    }
    let nlen: usize = num.unicode_len();
    let dot = find_char(num, '.', 0);
    let int_str = num.substring_char(0, dot);
    proof {
        assert(int_str@ =~= num@.take(dot as int));
    }
    let int_val = match parse_u64_digits(int_str) {
        Some(v) => v,
        None => {
            proof {
                if plain_value_us(value@) is Some {
                    // the whole part alone overflows a u64, beyond range
                    lemma_digits_val_nonneg(int_str@);
                    plain_magnitude(value@, digits_val(int_str@), mult as int);
                }
            }
            return None;
        },
    };
    // 10^e microseconds make one unit; the fraction contributes
    // floor(frac * mult / 10^k): its first e digits, scaled up when it
    // is shorter than that
    let e: usize = if mult == 1_000_000 {
        6
    } else if mult == 1000 {
        3
    } else {
        0
    };
    proof {
        lemma_pow10_units();
        assert(mult as int == pow10(e as nat));
    }
    let frac_us: u64 = if dot == nlen {
        0
    } else {
        let f_str = num.substring_char(dot + 1, nlen);
        proof {
            assert(f_str@ =~= num@.skip(dot as int + 1));
        }
        if !all_digits_check(f_str) {
            return None;
        }
        frac_contribution(f_str, e)
    };
    let cap: u64 = 4_000_000_000_000_000u64 / mult;
    proof {
        assert(cap * mult == 4_000_000_000_000_000) by (nonlinear_arith)
            requires
                mult == 1 || mult == 1000 || mult == 1_000_000,
                cap == 4_000_000_000_000_000u64 / mult,
        ;
    }
    if int_val > cap {
        proof {
            assert(int_val * mult > 4_000_000_000_000_000) by (nonlinear_arith)
                requires
                    int_val >= cap + 1,
                    cap * mult == 4_000_000_000_000_000,
                    mult >= 1,
            ;
            if plain_value_us(value@) is Some {
                plain_magnitude(value@, int_val as int, mult as int);
                assert(int_val * mult >= int_val) by (nonlinear_arith)
                    requires
                        mult >= 1,
                        int_val >= 0,
                ;
            }
        }
        return None;
    }
    proof {
        assert(int_val * mult <= cap * mult) by (nonlinear_arith)
            requires
                int_val <= cap,
                mult >= 1,
        ;
        assert(frac_us < mult);
    }
    let total: u64 = int_val * mult + frac_us;
    proof {
        assert(plain_value_us(value@) == Some(
            if neg {
                -(total as int)
            } else {
                total as int
            },
        ));
    }
    if total > 4_000_000_000_000_000u64 {
        return None;
    }
    let magnitude = total as i64;
    if neg {
        Some(-magnitude)
    } else {
        Some(magnitude)
    }
}

/// Exec counterpart of [`is_unit_char`].
fn is_unit_letter(c: char) -> (r: bool)
    ensures
        r == is_unit_char(c),
{
    c == 's' || c == 'm' || c == 'u'
}

/// When the plain form matches, its magnitude is at least the whole
/// part scaled by the unit (the fraction only adds).
proof fn plain_magnitude(s: Seq<char>, part: int, mult: int)
    requires
        plain_value_us(s) is Some,
        part >= 0,
        mult >= 1,
        ({
            let neg = s.len() > 0 && s[0] == '-';
            let body = if neg {
                s.skip(1)
            } else {
                s
            };
            let u = unit_start(body, body.len() as int);
            let num = body.take(u);
            let dot = find_from(num, '.', 0);
            &&& unit_multiplier(body.skip(u)) == Some(mult)
            &&& part <= digits_val(num.take(dot))
        }),
    ensures
        plain_value_us(s).unwrap() >= part * mult || plain_value_us(s).unwrap() <= -part * mult,
        plain_value_us(s).unwrap() >= part || plain_value_us(s).unwrap() <= -part,
{
    let neg = s.len() > 0 && s[0] == '-';
    let body = if neg {
        s.skip(1)
    } else {
        s
    };
    let u = unit_start(body, body.len() as int);
    let num = body.take(u);
    let dot = find_from(num, '.', 0);
    let int_str = num.take(dot);
    lemma_digits_val_nonneg(int_str);
    let frac_us: int = if dot == num.len() {
        0
    } else {
        let f = num.skip(dot + 1);
        lemma_digits_val_nonneg(f);
        lemma_pow10_pos(f.len());
        assert(digits_val(f) * mult >= 0) by (nonlinear_arith)
            requires
                digits_val(f) >= 0,
                mult >= 1,
        ;
        vstd::arithmetic::div_mod::lemma_div_pos_is_pos(digits_val(f) * mult, pow10(f.len()));
        (digits_val(f) * mult) / pow10(f.len())
    };
    let total = digits_val(int_str) * mult + frac_us;
    assert(plain_value_us(s) == Some(
        if neg {
            -total
        } else {
            total
        },
    ));
    assert(total >= part * mult && part * mult >= part) by (nonlinear_arith)
        requires
            digits_val(int_str) >= part >= 0,
            mult >= 1,
            frac_us >= 0,
            total == digits_val(int_str) * mult + frac_us,
    ;
    assert(-part * mult == -(part * mult)) by (nonlinear_arith);
    if neg {
        assert(plain_value_us(s).unwrap() == -total);
    } else {
        assert(plain_value_us(s).unwrap() == total);
    }
}

/// The concrete powers of ten up to the seconds unit.
proof fn lemma_pow10_units()
    ensures
        pow10(0) == 1,
        pow10(1) == 10,
        pow10(2) == 100,
        pow10(3) == 1000,
        pow10(4) == 10_000,
        pow10(5) == 100_000,
        pow10(6) == 1_000_000,
{
    assert(pow10(0) == 1);
    assert(pow10(1) == 10);
    assert(pow10(2) == 100);
    assert(pow10(3) == 1000);
    assert(pow10(4) == 10_000);
    assert(pow10(5) == 100_000);
    assert(pow10(6) == 1_000_000);
}

/// Powers of ten grow with the exponent.
proof fn lemma_pow10_increases(a: nat, b: nat)
    requires
        a <= b,
    ensures
        pow10(a) <= pow10(b),
{
    lemma_pow10_add(a, (b - a) as nat);
    lemma_pow10_pos(a);
    lemma_pow10_pos((b - a) as nat);
    assert(pow10(a) * pow10((b - a) as nat) >= pow10(a) * 1) by (nonlinear_arith)
        requires
            pow10(a) >= 1,
            pow10((b - a) as nat) >= 1,
    ;
}

/// Small exec powers of ten, up to the seconds unit.
fn pow10_small(n: usize) -> (r: u64)
    requires
        n <= 6,
    ensures
        r as int == pow10(n as nat),
        r <= 1_000_000,
{
    proof {
        lemma_pow10_units();
    }
    if n == 0 {
        1
    } else if n == 1 {
        10
    } else if n == 2 {
        100
    } else if n == 3 {
        1000
    } else if n == 4 {
        10_000
    } else if n == 5 {
        100_000
    } else {
        1_000_000
    }
}

/// The fraction digits' contribution in microseconds, for a unit of
/// `10^e` microseconds: `floor(frac × 10^e / 10^k)` for `k` digits —
/// a short fraction scaled up to the unit, a long one keeping its
/// leading `e` digits.
fn frac_contribution(f_str: &str, e: usize) -> (r: u64)
    requires
        f_str@.len() > 0,
        all_digits(f_str@),
        e <= 6,
    ensures
        r as int == (digits_val(f_str@) * pow10(e as nat)) / pow10(f_str@.len()),
        (r as int) < pow10(e as nat),
        r <= 1_000_000,
{
    proof {
        lemma_pow10_units();
        lemma_frac_scaled(f_str@, e as nat);
    }
    let k: usize = f_str.unicode_len();
    let j: usize = if k < e {
        k
    } else {
        e
    };
    let t_str = f_str.substring_char(0, j);
    proof {
        assert(t_str@ =~= f_str@.take(j as int));
        assert(all_digits(t_str@)) by {
            assert(forall|i: int| 0 <= i < j ==> t_str@[i] == f_str@[i]);
        }
        lemma_digits_val_bound(t_str@);
        lemma_pow10_increases(j as nat, 6);
    }
    let t_val: u64 = if j == 0 {
        proof {
            assert(digits_val(f_str@.take(0)) == 0);
        }
        0
    } else {
        match parse_u64_digits(t_str) {
            Some(t) => t,
            None => {
                proof {
                    // at most six digits never overflow a u64
                    assert(false);
                }
                0
            },
        }
    };
    let scale: u64 = pow10_small(e - j);
    proof {
        if k < e {
            assert(t_str@ =~= f_str@);
            assert(t_val == digits_val(f_str@));
        }
        assert(t_val as int * scale as int == (digits_val(f_str@) * pow10(e as nat)) / pow10(
            f_str@.len(),
        )) by {
            if j == 0 {
                assert(t_val as int * scale as int == 0) by (nonlinear_arith)
                    requires
                        t_val == 0,
                ;
            } else if k < e {
                assert(t_val as int * scale as int == digits_val(f_str@) * pow10(
                    (e - k) as nat,
                )) by (nonlinear_arith)
                    requires
                        t_val as int == digits_val(f_str@),
                        scale as int == pow10((e - k) as nat),
                ;
            } else {
                assert(scale == 1);
                if k == e {
                    assert(f_str@.take(e as int) =~= f_str@);
                }
                assert(t_val as int * scale as int == digits_val(f_str@.take(e as int))) by (
                nonlinear_arith)
                    requires
                        scale == 1,
                        t_val as int == digits_val(f_str@.take(e as int)),
                ;
            }
        }
        assert(t_val < 1_000_000 || t_val == 1_000_000 || t_val <= 1_000_000) by {
            assert((t_val as int) < pow10(j as nat) || j == 0);
        }
        assert(t_val * scale <= 1_000_000 * 1_000_000) by (nonlinear_arith)
            requires
                0 <= t_val <= 1_000_000,
                0 <= scale <= 1_000_000,
        ;
        assert((t_val as int * scale as int) < pow10(e as nat));
    }
    t_val * scale
}

/// The fraction's microsecond contribution, computed by place value:
/// scale a short fraction up to the unit, or keep a long one's leading
/// digits — exactly `floor(frac × unit / 10^k)`.
proof fn lemma_frac_scaled(f: Seq<char>, e: nat)
    requires
        all_digits(f),
        f.len() > 0,
    ensures
        (digits_val(f) * pow10(e)) / pow10(f.len()) == (if f.len() <= e {
            digits_val(f) * pow10((e - f.len()) as nat)
        } else {
            digits_val(f.take(e as int))
        }),
        0 <= (digits_val(f) * pow10(e)) / pow10(f.len()) < pow10(e),
{
    let k = f.len();
    let fv = digits_val(f);
    lemma_digits_val_bound(f);
    lemma_pow10_pos(k);
    lemma_pow10_pos(e);
    if k <= e {
        lemma_pow10_add(k, (e - k) as nat);
        let q = fv * pow10((e - k) as nat);
        lemma_pow10_pos((e - k) as nat);
        assert(q >= 0) by (nonlinear_arith)
            requires
                fv >= 0,
                pow10((e - k) as nat) >= 1,
                q == fv * pow10((e - k) as nat),
        ;
        assert(fv * pow10(e) == q * pow10(k)) by (nonlinear_arith)
            requires
                pow10(e) == pow10(k) * pow10((e - k) as nat),
                q == fv * pow10((e - k) as nat),
        ;
        lemma_fundamental_div_mod_converse(fv * pow10(e), pow10(k), q, 0);
        assert(q < pow10(e)) by (nonlinear_arith)
            requires
                fv < pow10(k),
                pow10((e - k) as nat) >= 1,
                pow10(e) == pow10(k) * pow10((e - k) as nat),
                q == fv * pow10((e - k) as nat),
        ;
    } else {
        lemma_digits_split(f, e as int);
        let t = digits_val(f.take(e as int));
        let rest = digits_val(f.skip(e as int));
        lemma_pow10_add((k - e) as nat, e);
        assert(fv * pow10(e) == t * pow10(k) + rest * pow10(e)) by (nonlinear_arith)
            requires
                fv == t * pow10((k - e) as nat) + rest,
                pow10(k) == pow10((k - e) as nat) * pow10(e),
        ;
        lemma_pow10_pos((k - e) as nat);
        assert(0 <= rest * pow10(e) < pow10(k)) by (nonlinear_arith)
            requires
                0 <= rest < pow10((k - e) as nat),
                pow10(e) >= 1,
                pow10(k) == pow10((k - e) as nat) * pow10(e),
        ;
        assert(t >= 0) by {
            assert(forall|i: int| 0 <= i < e ==> f.take(e as int)[i] == f[i]);
            lemma_digits_val_nonneg(f.take(e as int));
        }
        lemma_fundamental_div_mod_converse(fv * pow10(e), pow10(k), t, rest * pow10(e));
        assert(t < pow10(e)) by {
            assert(forall|i: int| 0 <= i < e ==> f.take(e as int)[i] == f[i]);
            lemma_digits_val_bound(f.take(e as int));
        }
    }
}

/// Reads a duration token into exact integer microseconds.
///
/// Returns the token's value when it matches either accepted form and its
/// magnitude is at most [`MAX_DURATION_US`]; returns nothing otherwise.
pub fn extract_duration(value: &str) -> (r: Option<i64>)
    ensures
        match spec_duration_us(value@) {
            Some(v) => (-MAX_DURATION_US <= v <= MAX_DURATION_US ==> r == Some(v as i64)) && (!(
            -MAX_DURATION_US <= v <= MAX_DURATION_US) ==> r is None),
            None => r is None,
        },
{
    match parse_colon(value) {
        Some(v) => Some(v),
        None => {
            proof {
                if colon_value_us(value@) is Some {
                    lemma_forms_disjoint(value@);
                }
            }
            parse_plain(value)
        },
    }
}

} // verus!
