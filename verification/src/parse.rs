//! Validation of guess lines: trimming surrounding white space and reading
//! a base-10 signed integer, exactly as the interactive loop expects it.

use vstd::prelude::*;

verus! {

/// A white-space character: the set that surrounding-trim removes.
pub open spec fn is_space(c: char) -> bool {
    let u = c as u32;
    ||| u == 9
    ||| u == 10
    ||| u == 11
    ||| u == 12
    ||| u == 13
    ||| u == 32
    ||| u == 0x85
    ||| u == 0xA0
    ||| u == 0x1680
    ||| (0x2000 <= u && u <= 0x200A)
    ||| u == 0x2028
    ||| u == 0x2029
    ||| u == 0x202F
    ||| u == 0x205F
    ||| u == 0x3000
}

/// A base-10 digit.
pub open spec fn is_digit(c: char) -> bool {
    48 <= c as u32 && c as u32 <= 57
}

/// The numeric value of one digit character.
pub open spec fn digit_val(c: char) -> int {
    c as u32 - 48
}

/// Every character of `s` is a base-10 digit.
pub open spec fn all_digits(s: Seq<char>) -> bool {
    forall|i: int| 0 <= i < s.len() ==> is_digit(#[trigger] s[i])
}

/// The value of a digit string, most significant digit first.
pub open spec fn digits_val(s: Seq<char>) -> int
    decreases s.len(),
{
    if s.len() == 0 {
        0
    } else {
        digits_val(s.drop_last()) * 10 + digit_val(s.last())
    }
}

/// `s` with its leading white space removed.
pub open spec fn trim_front(s: Seq<char>) -> Seq<char>
    decreases s.len(),
{
    if s.len() > 0 && is_space(s[0]) {
        trim_front(s.drop_first())
    } else {
        s
    }
}

/// `s` with its trailing white space removed.
pub open spec fn trim_back(s: Seq<char>) -> Seq<char>
    decreases s.len(),
{
    if s.len() > 0 && is_space(s.last()) {
        trim_back(s.drop_last())
    } else {
        s
    }
}

/// `s` with both leading and trailing white space removed.
pub open spec fn trimmed(s: Seq<char>) -> Seq<char> {
    trim_back(trim_front(s))
}

/// Length of the optional sign of a trimmed line.
pub open spec fn sign_len(t: Seq<char>) -> int {
    if t.len() > 0 && (t[0] == '+' || t[0] == '-') {
        1
    } else {
        0
    }
}

/// Whether a trimmed line denotes a negative value.
pub open spec fn is_negative(t: Seq<char>) -> bool {
    t.len() > 0 && t[0] == '-'
}

/// The digits of a trimmed line: everything after the optional sign.
pub open spec fn body_of(t: Seq<char>) -> Seq<char> {
    t.subrange(sign_len(t), t.len() as int)
}

/// A trimmed line is a well-formed numeral when an optional sign is
/// followed by at least one digit and nothing else.
pub open spec fn is_numeral(t: Seq<char>) -> bool {
    body_of(t).len() > 0 && all_digits(body_of(t))
}

/// The mathematical value of a well-formed numeral.
pub open spec fn numeral_val(t: Seq<char>) -> int {
    if is_negative(t) {
        -digits_val(body_of(t))
    } else {
        digits_val(body_of(t))
    }
}

/// What parsing a raw guess line yields: the value of the trimmed line
/// when it is a well-formed numeral that fits in `i32`, nothing otherwise.
pub open spec fn parse_spec(line: Seq<char>) -> Option<int> {
    let t = trimmed(line);
    if is_numeral(t) && i32::MIN <= numeral_val(t) <= i32::MAX {
        Some(numeral_val(t))
    } else {
        None
    }
}

/// Ten to the power `n`.
pub open spec fn pow10(n: nat) -> int
    decreases n,
{
    if n == 0 {
        1
    } else {
        10 * pow10((n - 1) as nat)
    }
}

proof fn lemma_pow10_pos(n: nat)
    ensures
        pow10(n) >= 1,
    decreases n,
{
    if n > 0 {
        lemma_pow10_pos((n - 1) as nat);
    }
}

proof fn lemma_pow10_mono(a: nat, b: nat)
    requires
        a <= b,
    ensures
        1 <= pow10(a) <= pow10(b),
    decreases b,
{
    if a == b {
        lemma_pow10_pos(a);
    } else {
        lemma_pow10_mono(a, (b - 1) as nat);
    }
}

proof fn lemma_trim_front_is_subrange(s: Seq<char>, k: int)
    requires
        0 <= k <= s.len(),
        forall|i: int| 0 <= i < k ==> is_space(#[trigger] s[i]),
        k < s.len() ==> !is_space(s[k]),
    ensures
        trim_front(s) == s.subrange(k, s.len() as int),
    decreases k,
{
    if k == 0 {
        assert(s.subrange(0, s.len() as int) =~= s);
    } else {
        let d = s.drop_first();
        assert(d =~= s.subrange(1, s.len() as int));
        lemma_trim_front_is_subrange(d, k - 1);
        assert(d.subrange(k - 1, d.len() as int) =~= s.subrange(k, s.len() as int));
    }
}

proof fn lemma_trim_back_is_subrange(s: Seq<char>, k: int)
    requires
        0 <= k <= s.len(),
        forall|i: int| k <= i < s.len() ==> is_space(#[trigger] s[i]),
        k > 0 ==> !is_space(s[k - 1]),
    ensures
        trim_back(s) == s.subrange(0, k),
    decreases s.len(),
{
    if k == s.len() {
        assert(s.subrange(0, k) =~= s);
    } else {
        let d = s.drop_last();
        assert(d =~= s.subrange(0, s.len() - 1));
        lemma_trim_back_is_subrange(d, k);
        assert(d.subrange(0, k) =~= s.subrange(0, k));
    }
}

proof fn lemma_trim_front_no_leading_space(s: Seq<char>)
    ensures
        trim_front(s).len() > 0 ==> !is_space(trim_front(s)[0]),
    decreases s.len(),
{
    if s.len() > 0 && is_space(s[0]) {
        lemma_trim_front_no_leading_space(s.drop_first());
    }
}

proof fn lemma_trim_back_prefix(s: Seq<char>)
    ensures
        trim_back(s).len() <= s.len(),
        forall|i: int| 0 <= i < trim_back(s).len() ==> #[trigger] trim_back(s)[i] == s[i],
        trim_back(s).len() > 0 ==> !is_space(trim_back(s).last()),
    decreases s.len(),
{
    if s.len() > 0 && is_space(s.last()) {
        lemma_trim_back_prefix(s.drop_last());
    }
}

/// Trimming is idempotent: a line trimmed once is already fully trimmed.
pub proof fn lemma_trimmed_idempotent(s: Seq<char>)
    ensures
        trimmed(trimmed(s)) == trimmed(s),
{
    let u = trim_front(s);
    let v = trim_back(u);
    lemma_trim_front_no_leading_space(s);
    lemma_trim_back_prefix(u);
    if v.len() > 0 {
        assert(v[0] == u[0]);
        assert(!is_space(v[0]));
        assert(trim_front(v) == v);
        assert(!is_space(v.last()));
        assert(trim_back(v) == v);
    } else {
        assert(trim_front(v) == v);
        assert(trim_back(v) == v);
    }
}

/// Surrounding white space never changes what a line parses to: a raw
/// line and its trimmed form yield the same result.
pub proof fn lemma_parse_ignores_surrounding_space(s: Seq<char>)
    ensures
        parse_spec(trimmed(s)) == parse_spec(s),
{
    lemma_trimmed_idempotent(s);
}

proof fn lemma_zeros_prefix_value(s: Seq<char>, k: int)
    requires
        0 <= k <= s.len(),
        forall|j: int| 0 <= j < k ==> (#[trigger] s[j]) as u32 == 48,
    ensures
        digits_val(s) == digits_val(s.subrange(k, s.len() as int)),
    decreases s.len(),
{
    if s.len() == k {
        if k > 0 {
            let d = s.drop_last();
            lemma_zeros_prefix_value(d, k - 1);
            assert(d.subrange(k - 1, d.len() as int) =~= s.subrange(k, s.len() as int));
            assert(digit_val(s.last()) == 0);
        }
    } else {
        let d = s.drop_last();
        lemma_zeros_prefix_value(d, k);
        assert(d.subrange(k, d.len() as int) =~= s.subrange(k, s.len() as int).drop_last());
        assert(s.subrange(k, s.len() as int).len() > 0);
        assert(s.subrange(k, s.len() as int).last() == s.last());
    }
}

proof fn lemma_digits_val_lower(s: Seq<char>)
    requires
        s.len() > 0,
        all_digits(s),
        s[0] as u32 != 48,
    ensures
        digits_val(s) >= pow10((s.len() - 1) as nat),
    decreases s.len(),
{
    assert(is_digit(s[0]));
    if s.len() == 1 {
        assert(s.drop_last().len() == 0);
        assert(digits_val(s.drop_last()) == 0);
        assert(s.last() == s[0]);
        assert(digit_val(s[0]) >= 1);
        assert(pow10(0) == 1);
    } else {
        let d = s.drop_last();
        assert forall|j: int| 0 <= j < d.len() implies is_digit(#[trigger] d[j]) by {
            assert(d[j] == s[j]);
        }
        assert(d[0] == s[0]);
        lemma_digits_val_lower(d);
        assert(digit_val(s.last()) >= 0);
        assert(pow10((s.len() - 1) as nat) == 10 * pow10((s.len() - 2) as nat));
    }
}

/// Checks one character for the white-space set that trimming removes.
pub fn is_space_char(c: char) -> (b: bool)
    ensures
        b == is_space(c),
{
    let u: u32 = c as u32;
    u == 9 || u == 10 || u == 11 || u == 12 || u == 13 || u == 32 || u == 0x85 || u == 0xA0
        || u == 0x1680 || (0x2000 <= u && u <= 0x200A) || u == 0x2028 || u == 0x2029 || u == 0x202F
        || u == 0x205F || u == 0x3000
}

/// Parses one guess line: trims surrounding white space, then reads an
/// optional sign followed by base-10 digits, rejecting anything else and
/// any value outside the `i32` range.
#[verifier::rlimit(60)]
pub fn parse_guess(line: &str) -> (r: Option<i32>)
    ensures
        match r {
            Some(v) => parse_spec(line@) == Some(v as int),
            None => parse_spec(line@) is None,
        },
{
    let n: usize = line.unicode_len();
    let mut start: usize = 0;
    while start < n && is_space_char(line.get_char(start))
        invariant
            0 <= start <= n,
            n == line@.len(),
            forall|k: int| 0 <= k < start ==> is_space(#[trigger] line@[k]),
        decreases n - start,
    {
        start += 1;
    }
    let mut end: usize = n;
    while end > start && is_space_char(line.get_char(end - 1))
        invariant
            start <= end <= n,
            n == line@.len(),
            forall|k: int| end <= k < n ==> is_space(#[trigger] line@[k]),
        decreases end,
    {
        end -= 1;
    }
    proof {
        lemma_trim_front_is_subrange(line@, start as int);
        lemma_trim_back_is_subrange(
            line@.subrange(start as int, n as int),
            end - start,
        );
        assert(line@.subrange(start as int, n as int).subrange(0, end - start) =~= line@.subrange(
            start as int,
            end as int,
        ));
    }
    let ghost t = trimmed(line@);
    proof {
        assert(t == line@.subrange(start as int, end as int));
        assert(t.len() == end - start);
    }
    let mut i: usize = start;
    let mut neg: bool = false;
    if i < end {
        let c: char = line.get_char(i);
        if c == '-' {
            neg = true;
            i += 1;
        } else if c == '+' {
            i += 1;
        }
    }
    proof {
        if start < end {
            assert(t[0] == line@[start as int]);
        }
        assert(i - start == sign_len(t));
        assert(neg == is_negative(t));
        assert(body_of(t) =~= line@.subrange(i as int, end as int));
    }
    let ghost body = body_of(t);
    if i == end {
        proof {
            assert(body.len() == 0);
            assert(!is_numeral(t));
        }
        return None;
    }
    let mut zend: usize = i;
    while zend < end && (line.get_char(zend) as u32) == 48
        invariant
            i <= zend <= end,
            end <= n,
            n == line@.len(),
            forall|k: int| i <= k < zend ==> (#[trigger] line@[k]) as u32 == 48,
        decreases end - zend,
    {
        zend += 1;
    }
    let ghost eff = line@.subrange(zend as int, end as int);
    proof {
        lemma_zeros_prefix_value(body, zend - i);
        assert(body.subrange(zend - i, body.len() as int) =~= eff);
        assert(digits_val(body) == digits_val(eff));
    }
    if end - zend > 10 {
        proof {
            if all_digits(body) {
                assert forall|j: int| 0 <= j < eff.len() implies is_digit(#[trigger] eff[j]) by {
                    assert(eff[j] == body[j + (zend - i)]);
                    assert(is_digit(body[j + (zend - i)]));
                }
                assert(eff[0] == line@[zend as int]);
                lemma_digits_val_lower(eff);
                lemma_pow10_mono(10, (eff.len() - 1) as nat);
                assert(pow10(10) == 10000000000) by {
                    reveal_with_fuel(pow10, 11);
                }
                assert(!(i32::MIN <= numeral_val(t) <= i32::MAX));
            } else {
                assert(!is_numeral(t));
            }
        }
        return None;
    }
    let mut acc: i64 = 0;
    let mut k: usize = zend;
    while k < end
        invariant
            zend <= k <= end,
            i <= zend <= end,
            end <= n,
            n == line@.len(),
            end - zend <= 10,
            t == trimmed(line@),
            eff == line@.subrange(zend as int, end as int),
            body == body_of(t),
            body == line@.subrange(i as int, end as int),
            all_digits(eff.subrange(0, k - zend)),
            acc == digits_val(eff.subrange(0, k - zend)),
            0 <= acc < pow10((k - zend) as nat),
        decreases end - k,
    {
        let u: u32 = line.get_char(k) as u32;
        if u < 48 || u > 57 {
            proof {
                assert(body[k - i] == line@[k as int]);
                assert(!is_digit(body[k - i]));
                assert(!is_numeral(t));
            }
            return None;
        }
        proof {
            lemma_pow10_mono((k - zend + 1) as nat, 10);
            assert(pow10(10) == 10000000000) by {
                reveal_with_fuel(pow10, 11);
            }
            assert(pow10((k - zend + 1) as nat) == 10 * pow10((k - zend) as nat));
        }
        acc = acc * 10 + ((u - 48) as i64);
        proof {
            let m = k - zend;
            assert(eff.subrange(0, m + 1).drop_last() =~= eff.subrange(0, m));
            assert(eff.subrange(0, m + 1).last() == eff[m]);
            assert(eff[m] == line@[k as int]);
            assert forall|j: int|
                0 <= j < m + 1 implies is_digit(#[trigger] eff.subrange(0, m + 1)[j]) by {
                assert(eff.subrange(0, m + 1)[j] == eff[j]);
                if j < m {
                    assert(is_digit(eff.subrange(0, m)[j]));
                    assert(eff.subrange(0, m)[j] == eff[j]);
                }
            }
        }
        k += 1;
    }
    proof {
        assert(eff.subrange(0, end - zend) =~= eff);
        assert(all_digits(eff));
        assert forall|j: int| 0 <= j < body.len() implies is_digit(#[trigger] body[j]) by {
            if j < zend - i {
                assert(body[j] == line@[i + j]);
                assert((line@[i + j]) as u32 == 48);
            } else {
                assert(body[j] == eff[j - (zend - i)]);
                assert(is_digit(eff[j - (zend - i)]));
            }
        }
        assert(is_numeral(t));
        assert(digits_val(body) == acc);
        lemma_pow10_mono((end - zend) as nat, 10);
        assert(pow10(10) == 10000000000) by {
            reveal_with_fuel(pow10, 11);
        }
        assert(0 <= acc < 10000000000);
    }
    if neg {
        if acc > 2147483648i64 {
            proof {
                assert(numeral_val(t) == -acc);
                assert(!(i32::MIN <= numeral_val(t)));
            }
            return None;
        }
        let v: i32 = (0i64 - acc) as i32;
        proof {
            assert(v as int == numeral_val(t));
        }
        Some(v)
    } else {
        if acc > 2147483647i64 {
            proof {
                assert(numeral_val(t) == acc);
                assert(!(numeral_val(t) <= i32::MAX));
            }
            return None;
        }
        let v: i32 = acc as i32;
        Some(v)
    }
}

} // verus!
