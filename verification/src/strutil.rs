//! Verified string helpers shared by the parsers.
//!
//! The progress stream and the argument flags are ASCII `key=value` /
//! number material, so trimming and digit handling are defined over the
//! four ASCII whitespace characters and the ASCII digits.

use vstd::prelude::*;

verus! {

/// Whether `c` is one of the ASCII whitespace characters that line
/// trimming removes.
pub open spec fn is_space_char(c: char) -> bool {
    c == ' ' || c == '\t' || c == '\n' || c == '\r'
}

/// First index at or after `i` holding a non-space character, or `s.len()`.
pub open spec fn first_non_space(s: Seq<char>, i: int) -> int
    decreases s.len() - i,
{
    if i < 0 || i >= s.len() {
        s.len() as int
    } else if is_space_char(s[i]) {
        first_non_space(s, i + 1)
    } else {
        i
    }
}

/// End (exclusive) of the last non-space character strictly before `i`,
/// or `0` when everything before `i` is space.
pub open spec fn last_non_space_end(s: Seq<char>, i: int) -> int
    decreases i,
{
    if i <= 0 {
        0
    } else if is_space_char(s[i - 1]) {
        last_non_space_end(s, i - 1)
    } else {
        i
    }
}

/// `s` with leading and trailing ASCII whitespace removed.  Unicode
/// whitespace is left in place: the streams and flags this library
/// reads are ASCII.
pub open spec fn spec_trim(s: Seq<char>) -> Seq<char> {
    let a = first_non_space(s, 0);
    if a == s.len() {
        Seq::empty()
    } else {
        s.subrange(a, last_non_space_end(s, s.len() as int))
    }
}

pub proof fn lemma_first_non_space_bounds(s: Seq<char>, i: int)
    requires
        0 <= i <= s.len(),
    ensures
        i <= first_non_space(s, i) <= s.len(),
        forall|j: int| i <= j < first_non_space(s, i) ==> is_space_char(s[j]),
        first_non_space(s, i) < s.len() ==> !is_space_char(s[first_non_space(s, i)]),
    decreases s.len() - i,
{
    if i < s.len() && is_space_char(s[i]) {
        lemma_first_non_space_bounds(s, i + 1);
    }
}

/// Exact string equality on views.
pub fn str_eq(a: &str, b: &str) -> (r: bool)
    ensures
        r == (a@ == b@),
{
    let alen: usize = a.unicode_len();
    let blen: usize = b.unicode_len();
    if alen != blen {
        assert(a@ != b@) by {
            assert(a@.len() != b@.len());
        }
        return false;
    }
    let mut i: usize = 0;
    while i < alen
        invariant
            alen == a@.len(),
            alen == b@.len(),
            i <= alen,
            forall|j: int| 0 <= j < i ==> a@[j] == b@[j],
        decreases alen - i,
    {
        if a.get_char(i) != b.get_char(i) {
            return false;
        }
        i = i + 1;
    }
    assert(a@ =~= b@);
    true
}

/// Whether the view of `s` starts with the view of `p`.
pub fn str_starts_with(s: &str, p: &str) -> (r: bool)
    ensures
        r == (p@.len() <= s@.len() && s@.subrange(0, p@.len() as int) == p@),
{
    let slen: usize = s.unicode_len();
    let plen: usize = p.unicode_len();
    if plen > slen {
        return false;
    }
    let mut i: usize = 0;
    while i < plen
        invariant
            slen == s@.len(),
            plen == p@.len(),
            plen <= slen,
            i <= plen,
            forall|j: int| 0 <= j < i ==> s@[j] == p@[j],
        decreases plen - i,
    {
        if s.get_char(i) != p.get_char(i) {
            assert(s@.subrange(0, plen as int)[i as int] != p@[i as int]);
            return false;
        }
        i = i + 1;
    }
    assert(s@.subrange(0, plen as int) =~= p@);
    true
}

/// Exec counterpart of [`is_space_char`].
pub fn is_space(c: char) -> (r: bool)
    ensures
        r == is_space_char(c),
{
    c == ' ' || c == '\t' || c == '\n' || c == '\r'
}

/// `s` with leading and trailing ASCII whitespace removed.
pub fn trim(s: &str) -> (r: &str)
    ensures
        r@ == spec_trim(s@),
{
    let len: usize = s.unicode_len();
    let mut a: usize = 0;
    while a < len && is_space(s.get_char(a))
        invariant
            len == s@.len(),
            a <= len,
            forall|j: int| 0 <= j < a ==> is_space_char(s@[j]),
        decreases len - a,
    {
        a = a + 1;
    }
    proof {
        lemma_first_non_space_bounds(s@, 0);
        if a < len {
            assert(first_non_space(s@, 0) == a) by {
                lemma_first_non_space_between(s@, 0, a as int);
            }
        } else {
            assert(first_non_space(s@, 0) == len) by {
                lemma_first_non_space_between(s@, 0, a as int);
            }
        }
    }
    if a == len {
        let r = s.substring_char(0, 0);
        assert(r@ =~= spec_trim(s@));
        return r;
    }
    let mut b: usize = len;
    while b > a && is_space(s.get_char(b - 1))
        invariant
            len == s@.len(),
            a < len,
            a <= b <= len,
            !is_space_char(s@[a as int]),
            forall|j: int| b <= j < len ==> is_space_char(s@[j]),
        decreases b,
    {
        b = b - 1;
    }
    proof {
        assert(last_non_space_end(s@, len as int) == b) by {
            lemma_last_non_space_between(s@, len as int, b as int);
        }
    }
    s.substring_char(a, b)
}

/// `first_non_space` stops exactly where the scanned prefix says it does.
proof fn lemma_first_non_space_between(s: Seq<char>, i: int, a: int)
    requires
        0 <= i <= a <= s.len(),
        forall|j: int| i <= j < a ==> is_space_char(s[j]),
        a < s.len() ==> !is_space_char(s[a]),
    ensures
        first_non_space(s, i) == if a < s.len() { a } else { s.len() as int },
    decreases a - i,
{
    if i < a {
        lemma_first_non_space_between(s, i + 1, a);
    }
}

/// `last_non_space_end` stops exactly where the scanned suffix says it does.
proof fn lemma_last_non_space_between(s: Seq<char>, i: int, b: int)
    requires
        0 <= b <= i <= s.len(),
        forall|j: int| b <= j < i ==> is_space_char(s[j]),
        b > 0 ==> !is_space_char(s[b - 1]),
    ensures
        last_non_space_end(s, i) == b,
    decreases i - b,
{
    if b < i {
        lemma_last_non_space_between(s, i - 1, b);
    }
}

/// First index at or after `i` where `c` occurs in `s`, or `s.len()`.
pub open spec fn find_from(s: Seq<char>, c: char, i: int) -> int
    decreases s.len() - i,
{
    if i < 0 || i >= s.len() {
        s.len() as int
    } else if s[i] == c {
        i
    } else {
        find_from(s, c, i + 1)
    }
}

pub proof fn lemma_find_from_bounds(s: Seq<char>, c: char, i: int)
    requires
        0 <= i <= s.len(),
    ensures
        i <= find_from(s, c, i) <= s.len(),
        forall|j: int| i <= j < find_from(s, c, i) ==> s[j] != c,
        find_from(s, c, i) < s.len() ==> s[find_from(s, c, i)] == c,
    decreases s.len() - i,
{
    if i < s.len() && s[i] != c {
        lemma_find_from_bounds(s, c, i + 1);
    }
}

/// First occurrence of `c` at or after `from`, as the exec counterpart of
/// [`find_from`].
pub fn find_char(s: &str, c: char, from: usize) -> (r: usize)
    requires
        from <= s@.len(),
    ensures
        r == find_from(s@, c, from as int),
        from <= r <= s@.len(),
    decreases s@.len() - from,
{
    let len: usize = s.unicode_len();
    let mut i: usize = from;
    while i < len && s.get_char(i) != c
        invariant
            len == s@.len(),
            from <= i <= len,
            forall|j: int| from <= j < i ==> s@[j] != c,
        decreases len - i,
    {
        i = i + 1;
    }
    proof {
        lemma_find_between(s@, c, from as int, i as int);
    }
    i
}

proof fn lemma_find_between(s: Seq<char>, c: char, i: int, a: int)
    requires
        0 <= i <= a <= s.len(),
        forall|j: int| i <= j < a ==> s[j] != c,
        a < s.len() ==> s[a] == c,
    ensures
        find_from(s, c, i) == if a < s.len() { a } else { s.len() as int },
    decreases a - i,
{
    if i < a {
        lemma_find_between(s, c, i + 1, a);
    }
}

/// Whether every character of `s` is an ASCII decimal digit.
pub open spec fn all_digits(s: Seq<char>) -> bool {
    forall|i: int| 0 <= i < s.len() ==> '0' <= #[trigger] s[i] <= '9'
}

/// Numeric value of a digit string (most significant digit first).
pub open spec fn digits_val(s: Seq<char>) -> int
    decreases s.len(),
{
    if s.len() == 0 {
        0
    } else {
        digits_val(s.drop_last()) * 10 + (s.last() as int - '0' as int)
    }
}

pub proof fn lemma_digits_val_nonneg(s: Seq<char>)
    requires
        all_digits(s),
    ensures
        digits_val(s) >= 0,
    decreases s.len(),
{
    if s.len() > 0 {
        assert(all_digits(s.drop_last())) by {
            assert(forall|i: int|
                0 <= i < s.drop_last().len() ==> s.drop_last()[i] == s[i]);
        }
        lemma_digits_val_nonneg(s.drop_last());
    }
}

/// Extending a digit string can only grow its value.
pub proof fn lemma_digits_val_take_grows(s: Seq<char>, i: int)
    requires
        all_digits(s),
        0 <= i <= s.len(),
    ensures
        digits_val(s.take(i)) <= digits_val(s),
    decreases s.len() - i,
{
    if i < s.len() {
        lemma_digits_val_take_grows(s, i + 1);
        let t = s.take(i + 1);
        assert(t.drop_last() =~= s.take(i));
        assert(all_digits(s.take(i))) by {
            assert(forall|j: int| 0 <= j < i ==> s.take(i)[j] == s[j]);
        }
        lemma_digits_val_nonneg(s.take(i));
        assert(digits_val(t) == digits_val(s.take(i)) * 10 + (t.last() as int - '0' as int));
        assert(t.last() == s[i]);
        assert(digits_val(s.take(i)) * 10 >= digits_val(s.take(i))) by (nonlinear_arith)
            requires
                digits_val(s.take(i)) >= 0,
        ;
    } else {
        assert(s.take(i) =~= s);
    }
}

/// Parses a non-empty all-digit string into a `u64`.
///
/// Returns the exact numeric value, or `None` when `s` is empty, holds a
/// non-digit, or the value exceeds `u64::MAX`.  Unlike the standard
/// integer parse this accepts no leading `+`; the supervised tool never
/// emits one.
pub fn parse_u64_digits(s: &str) -> (r: Option<u64>)
    ensures
        match r {
            Some(v) => all_digits(s@) && s@.len() > 0 && v == digits_val(s@),
            None => s@.len() == 0 || !all_digits(s@) || digits_val(s@) > u64::MAX,
        },
{
    let len: usize = s.unicode_len();
    if len == 0 {
        return None;
    }
    let mut acc: u64 = 0;
    let mut i: usize = 0;
    while i < len
        invariant
            len == s@.len(),
            i <= len,
            all_digits(s@.take(i as int)),
            acc == digits_val(s@.take(i as int)),
        decreases len - i,
    {
        let c = s.get_char(i);
        if c < '0' || c > '9' {
            assert(!all_digits(s@));
            return None;
        }
        let d: u64 = (c as u32 as u64) - ('0' as u32 as u64);
        assert(d <= 9);
        if acc > (u64::MAX - d) / 10 {
            proof {
                let t = s@.take(i as int + 1);
                assert(t.drop_last() =~= s@.take(i as int));
                assert(t.last() == s@[i as int]);
                assert(all_digits(t)) by {
                    assert(forall|j: int| 0 <= j < t.len() ==> t[j] == s@[j]);
                }
                assert(digits_val(t) == acc * 10 + d);
                assert(acc * 10 + d > u64::MAX) by (nonlinear_arith)
                    requires
                        acc > (u64::MAX - d) / 10,
                        d <= 9,
                ;
                if all_digits(s@) {
                    lemma_digits_val_take_grows(s@, i as int + 1);
                    assert(digits_val(s@) > u64::MAX);
                }
            }
            return None;
        }
        proof {
            assert(acc * 10 + d <= u64::MAX) by (nonlinear_arith)
                requires
                    acc <= (u64::MAX - d) / 10,
                    d <= 9,
            ;
        }
        acc = acc * 10 + d;
        proof {
            let t = s@.take(i as int + 1);
            assert(t.drop_last() =~= s@.take(i as int));
            assert(t.last() == s@[i as int]);
            assert(all_digits(t)) by {
                assert(forall|j: int| 0 <= j < t.len() ==> t[j] == s@[j]);
            }
        }
        i = i + 1;
    }
    proof {
        assert(s@.take(len as int) =~= s@);
    }
    Some(acc)
}

} // verus!

verus! {

/// Ten to the `n`.
pub open spec fn pow10(n: nat) -> int
    decreases n,
{
    if n == 0 {
        1
    } else {
        10 * pow10((n - 1) as nat)
    }
}

pub proof fn lemma_pow10_pos(n: nat)
    ensures
        pow10(n) >= 1,
    decreases n,
{
    if n > 0 {
        lemma_pow10_pos((n - 1) as nat);
    }
}

/// Powers of ten multiply by adding exponents.
pub proof fn lemma_pow10_add(a: nat, b: nat)
    ensures
        pow10(a + b) == pow10(a) * pow10(b),
    decreases a,
{
    if a == 0 {
        assert(pow10(0 + b) == 1 * pow10(b));
    } else {
        lemma_pow10_add((a - 1) as nat, b);
        assert(pow10(a + b) == 10 * pow10((a + b - 1) as nat));
        assert((a - 1) + b == a + b - 1);
        assert(10 * (pow10((a - 1) as nat) * pow10(b)) == (10 * pow10((a - 1) as nat)) * pow10(
            b,
        )) by (nonlinear_arith);
    }
}

/// A digit string's value is below ten to its length.
pub proof fn lemma_digits_val_bound(s: Seq<char>)
    requires
        all_digits(s),
    ensures
        0 <= digits_val(s) < pow10(s.len()),
    decreases s.len(),
{
    if s.len() == 0 {
    } else {
        assert(all_digits(s.drop_last())) by {
            assert(forall|i: int|
                0 <= i < s.drop_last().len() ==> s.drop_last()[i] == s[i]);
        }
        lemma_digits_val_bound(s.drop_last());
        let p = pow10((s.len() - 1) as nat);
        assert(digits_val(s.drop_last()) * 10 <= (p - 1) * 10) by (nonlinear_arith)
            requires
                digits_val(s.drop_last()) <= p - 1,
        ;
        assert(pow10(s.len()) == 10 * p);
    }
}

/// Splitting a digit string at `j` splits its value by place value: the
/// prefix scaled by ten to the suffix's length, plus the suffix.
pub proof fn lemma_digits_split(s: Seq<char>, j: int)
    requires
        all_digits(s),
        0 <= j <= s.len(),
    ensures
        digits_val(s) == digits_val(s.take(j)) * pow10((s.len() - j) as nat) + digits_val(
            s.skip(j),
        ),
        0 <= digits_val(s.skip(j)) < pow10((s.len() - j) as nat),
    decreases s.len(),
{
    assert(forall|i: int| 0 <= i < j ==> s.take(j)[i] == s[i]);
    assert(forall|i: int| 0 <= i < s.len() - j ==> s.skip(j)[i] == s[j + i]);
    assert(all_digits(s.take(j)));
    assert(all_digits(s.skip(j)));
    lemma_digits_val_bound(s.skip(j));
    if j == s.len() {
        assert(s.take(j) =~= s);
        assert(s.skip(j) =~= Seq::<char>::empty());
        assert(digits_val(s) * pow10(0) == digits_val(s)) by (nonlinear_arith)
            requires
                pow10(0) == 1,
        ;
    } else {
        let s2 = s.drop_last();
        assert(all_digits(s2)) by {
            assert(forall|i: int| 0 <= i < s2.len() ==> s2[i] == s[i]);
        }
        lemma_digits_split(s2, j);
        let d = s.last() as int - '0' as int;
        assert(s2.take(j) =~= s.take(j));
        assert(s.skip(j).drop_last() =~= s2.skip(j));
        assert(s.skip(j).last() == s.last());
        assert(digits_val(s.skip(j)) == digits_val(s2.skip(j)) * 10 + d);
        let t = digits_val(s.take(j));
        let p2 = pow10((s2.len() - j) as nat);
        assert(pow10((s.len() - j) as nat) == 10 * p2);
        assert(digits_val(s) == digits_val(s2) * 10 + d);
        assert((t * p2 + digits_val(s2.skip(j))) * 10 == t * (10 * p2) + digits_val(s2.skip(j))
            * 10) by (nonlinear_arith);
    }
}

/// Whether `s` is nonempty and all ASCII digits.
pub fn all_digits_check(s: &str) -> (r: bool)
    ensures
        r == (s@.len() > 0 && all_digits(s@)),
{
    let len: usize = s.unicode_len();
    if len == 0 {
        return false;
    }
    let mut i: usize = 0;
    while i < len
        invariant
            len == s@.len(),
            i <= len,
            forall|j: int| 0 <= j < i ==> '0' <= #[trigger] s@[j] <= '9',
        decreases len - i,
    {
        let c = s.get_char(i);
        if c < '0' || c > '9' {
            return false;
        }
        i = i + 1;
    }
    true
}

} // verus!
