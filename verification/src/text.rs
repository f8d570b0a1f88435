//! Decimal text: rendering and reading unsigned integers, and comparing strings.
//!
//! The rendering follows the `Display` output of Rust's unsigned integers
//! (no sign, no leading zeros, `"0"` for zero) and the reading follows their
//! `FromStr` (an optional `+`, then one or more ASCII digits, no overflow).

use vstd::prelude::*;

verus! {

/// `c` is one of the ASCII digits `0`..`9`.
pub open spec fn is_digit(c: char) -> bool {
    '0' <= c && c <= '9'
}

/// The value of an ASCII digit.
pub open spec fn digit_value(c: char) -> int {
    (c as int) - ('0' as int)
}

/// The ASCII digit of a value below ten.
pub open spec fn digit_char(d: nat) -> char {
    ((d as int) + ('0' as int)) as char
}

/// Every character of `s` is an ASCII digit.
pub open spec fn all_digits(s: Seq<char>) -> bool {
    forall|i: int| 0 <= i < s.len() ==> #[trigger] is_digit(s[i])
}

/// The number written by the digit string `s`, most significant digit first.
pub open spec fn decimal_value(s: Seq<char>) -> nat
    decreases s.len(),
{
    if s.len() == 0 {
        0
    } else {
        (decimal_value(s.drop_last()) * 10 + digit_value(s.last())) as nat
    }
}

/// The canonical decimal text of `n`.
pub open spec fn decimal(n: nat) -> Seq<char>
    decreases n,
{
    if n < 10 {
        seq![digit_char(n)]
    } else {
        decimal(n / 10).push(digit_char(n % 10))
    }
}

/// What `u64::from_str` gives for the text `s`.
pub open spec fn spec_parse_u64(s: Seq<char>) -> Option<u64> {
    let digits = if s.len() > 0 && s[0] == '+' {
        s.drop_first()
    } else {
        s
    };
    if digits.len() > 0 && all_digits(digits) && decimal_value(digits) <= u64::MAX {
        Some(decimal_value(digits) as u64)
    } else {
        None
    }
}

/// What `u32::from_str` gives for the text `s`.
pub open spec fn spec_parse_u32(s: Seq<char>) -> Option<u32> {
    match spec_parse_u64(s) {
        Some(v) => if v <= u32::MAX {
            Some(v as u32)
        } else {
            None
        },
        None => None,
    }
}

proof fn lemma_digit_char_roundtrip(d: nat)
    requires
        d < 10,
    ensures
        is_digit(digit_char(d)),
        digit_value(digit_char(d)) == d,
{
}

/// The text of a single digit.
fn digit_text(d: u64) -> (s: &'static str)
    requires
        d < 10,
    ensures
        s@ == seq![digit_char(d as nat)],
{
    proof {
        reveal_strlit("0");
        reveal_strlit("1");
        reveal_strlit("2");
        reveal_strlit("3");
        reveal_strlit("4");
        reveal_strlit("5");
        reveal_strlit("6");
        reveal_strlit("7");
        reveal_strlit("8");
        reveal_strlit("9");
    }
    if d == 0 {
        "0"
    } else if d == 1 {
        "1"
    } else if d == 2 {
        "2"
    } else if d == 3 {
        "3"
    } else if d == 4 {
        "4"
    } else if d == 5 {
        "5"
    } else if d == 6 {
        "6"
    } else if d == 7 {
        "7"
    } else if d == 8 {
        "8"
    } else {
        "9"
    }
}

/// Renders `n` in decimal, as `n.to_string()` does.
pub fn format_u64(n: u64) -> (s: String)
    ensures
        s@ == decimal(n as nat),
    decreases n,
{
    if n < 10 {
        let mut s = String::new();
        s.append(digit_text(n));
        s
    } else {
        let mut s = format_u64(n / 10);
        s.append(digit_text(n % 10));
        s
    }
}

/// Appends the decimal text of `n` to `out`.
pub fn push_u64(out: &mut String, n: u64)
    ensures
        final(out)@ == old(out)@ + decimal(n as nat),
{
    let d = format_u64(n);
    out.append(d.as_str());
}

/// Reads an unsigned decimal number as `u64::from_str` does.
pub fn parse_u64(s: &str) -> (r: Option<u64>)
    ensures
        r == spec_parse_u64(s@),
{
    let len = s.unicode_len();
    let start: usize = if len > 0 && s.get_char(0) == '+' {
        1
    } else {
        0
    };
    let ghost digits = if s@.len() > 0 && s@[0] == '+' {
        s@.drop_first()
    } else {
        s@
    };
    assert(digits =~= s@.subrange(start as int, len as int));
    if start >= len {
        return None;
    }
    let mut value: u64 = 0;
    let mut i: usize = start;
    while i < len
        invariant
            start <= i <= len,
            len == s@.len(),
            digits == (if s@.len() > 0 && s@[0] == '+' {
                s@.drop_first()
            } else {
                s@
            }),
            digits =~= s@.subrange(start as int, len as int),
            all_digits(s@.subrange(start as int, i as int)),
            value == decimal_value(s@.subrange(start as int, i as int)),
        decreases len - i,
    {
        let c = s.get_char(i);
        let ghost prefix = s@.subrange(start as int, i as int);
        let ghost next = s@.subrange(start as int, i + 1);
        assert(next.drop_last() =~= prefix);
        assert(next.last() == c);
        if !('0' <= c && c <= '9') {
            assert(digits[i - start] == c);
            assert(!is_digit(digits[i - start]));
            assert(!all_digits(digits));
            return None;
        }
        let d = (c as u32 - '0' as u32) as u64;
        assert(d == digit_value(c));
        match value.checked_mul(10) {
            Some(v10) => match v10.checked_add(d) {
                Some(v) => {
                    value = v;
                },
                None => {
                    proof {
                        assert(digits.take(i - start + 1) =~= next);
                        if all_digits(digits) {
                            lemma_prefix_value_bounds(digits, (i - start + 1) as nat);
                        }
                    }
                    return None;
                },
            },
            None => {
                proof {
                    assert(digits.take(i - start + 1) =~= next);
                    if all_digits(digits) {
                        lemma_prefix_value_bounds(digits, (i - start + 1) as nat);
                    }
                }
                return None;
            },
        }
        assert forall|k: int| 0 <= k < next.len() implies #[trigger] is_digit(next[k]) by {
            if k < prefix.len() {
                assert(next[k] == prefix[k]);
            }
        }
        i = i + 1;
    }
    assert(s@.subrange(start as int, len as int) =~= digits);
    Some(value)
}

/// A digit string whose prefix already overflows has an overflowing value.
proof fn lemma_prefix_value_bounds(s: Seq<char>, k: nat)
    requires
        k <= s.len(),
        all_digits(s),
        decimal_value(s.take(k as int)) > u64::MAX,
    ensures
        decimal_value(s) > u64::MAX,
    decreases s.len() - k,
{
    if k < s.len() {
        let t = s.take(k as int + 1);
        assert(t.drop_last() =~= s.take(k as int));
        assert(is_digit(s[k as int]));
        assert(decimal_value(t) >= decimal_value(s.take(k as int)) * 10);
        lemma_prefix_value_bounds(s, k + 1);
    } else {
        assert(s.take(k as int) =~= s);
    }
}

/// Reads an unsigned decimal number as `u32::from_str` does.
pub fn parse_u32(s: &str) -> (r: Option<u32>)
    ensures
        r == spec_parse_u32(s@),
{
    match parse_u64(s) {
        Some(v) => if v <= u32::MAX as u64 {
            Some(v as u32)
        } else {
            None
        },
        None => None,
    }
}

/// The number in `raw` when it reads as a `u64`, else `default`: how the
/// bot takes an integer setting from the environment.
pub fn parse_u64_or(raw: Option<&str>, default: u64) -> (r: u64)
    ensures
        r == match raw {
            Some(s) => match spec_parse_u64(s@) {
                Some(v) => v,
                None => default,
            },
            None => default,
        },
{
    match raw {
        Some(s) => match parse_u64(s) {
            Some(v) => v,
            None => default,
        },
        None => default,
    }
}

/// The number in `raw` when it reads as a `u32`, else `default`.
pub fn parse_u32_or(raw: Option<&str>, default: u32) -> (r: u32)
    ensures
        r == match raw {
            Some(s) => match spec_parse_u32(s@) {
                Some(v) => v,
                None => default,
            },
            None => default,
        },
{
    match raw {
        Some(s) => match parse_u32(s) {
            Some(v) => v,
            None => default,
        },
        None => default,
    }
}

/// Character-wise equality of two strings.
pub fn str_equal(a: &str, b: &str) -> (r: bool)
    ensures
        r == (a@ == b@),
{
    let la = a.unicode_len();
    let lb = b.unicode_len();
    if la != lb {
        return false;
    }
    let mut i: usize = 0;
    while i < la
        invariant
            i <= la,
            la == a@.len(),
            lb == b@.len(),
            la == lb,
            forall|k: int| 0 <= k < i ==> a@[k] == b@[k],
        decreases la - i,
    {
        if a.get_char(i) != b.get_char(i) {
            return false;
        }
        i = i + 1;
    }
    assert(a@ =~= b@);
    true
}

/// Reading back the decimal text of a number gives the number.
pub proof fn lemma_parse_format_roundtrip(n: u64)
    ensures
        spec_parse_u64(decimal(n as nat)) == Some(n),
{
    lemma_decimal_digits(n as nat);
}

/// The decimal text of `n` is a non-empty digit string, without a leading
/// `+`, whose value is `n`.
pub proof fn lemma_decimal_digits(n: nat)
    ensures
        decimal(n).len() > 0,
        all_digits(decimal(n)),
        decimal(n)[0] != '+',
        decimal_value(decimal(n)) == n,
    decreases n,
{
    if n < 10 {
        lemma_digit_char_roundtrip(n);
        assert(decimal(n).drop_last() =~= Seq::<char>::empty());
        assert(decimal(n).last() == digit_char(n));
        assert(decimal_value(Seq::<char>::empty()) == 0);
    } else {
        lemma_decimal_digits(n / 10);
        lemma_digit_char_roundtrip(n % 10);
        let s = decimal(n);
        assert(s.drop_last() =~= decimal(n / 10));
        assert(s.last() == digit_char(n % 10));
        assert(decimal_value(s) == decimal_value(decimal(n / 10)) * 10 + digit_value(
            digit_char(n % 10),
        ));
        assert(n == (n / 10) * 10 + n % 10);
        assert forall|i: int| 0 <= i < s.len() implies #[trigger] is_digit(s[i]) by {
            if i < s.len() - 1 {
                assert(s[i] == decimal(n / 10)[i]);
            }
        }
        assert(s[0] == decimal(n / 10)[0]);
    }
}


/// The decimal text of a number has no leading zero unless it is `0`, and
/// one `+` in front of it does not change what it reads as.
pub proof fn lemma_decimal_canonical(n: u64)
    ensures
        decimal(n as nat).len() > 1 ==> decimal(n as nat)[0] != '0',
        n == 0 ==> decimal(n as nat) == seq!['0'],
        spec_parse_u64(seq!['+'] + decimal(n as nat)) == Some(n),
{
    lemma_decimal_leading(n as nat);
    lemma_decimal_digits(n as nat);
    let s = seq!['+'] + decimal(n as nat);
    assert(s.drop_first() =~= decimal(n as nat));
}

proof fn lemma_decimal_leading(n: nat)
    ensures
        decimal(n).len() > 1 ==> decimal(n)[0] != '0',
        decimal(n).len() > 1 <==> n >= 10,
    decreases n,
{
    if n >= 10 {
        lemma_decimal_leading(n / 10);
        assert(decimal(n)[0] == decimal(n / 10)[0]);
        if n / 10 < 10 {
            lemma_digit_char_roundtrip(n / 10);
            assert(decimal(n / 10) == seq![digit_char(n / 10)]);
            assert(digit_value('0') == 0);
        }
    }
}

/// Whatever reads as a number is a non-empty run of digits after at most
/// one leading `+`, and a number bigger than `u64::MAX` never reads.
pub proof fn lemma_parse_shape(s: Seq<char>)
    ensures
        spec_parse_u64(s) is Some ==> s.len() > 0 && (if s[0] == '+' {
            s.len() > 1 && all_digits(s.drop_first())
        } else {
            all_digits(s)
        }),
        spec_parse_u64(s) matches Some(v) ==> v == decimal_value(
            if s[0] == '+' {
                s.drop_first()
            } else {
                s
            },
        ),
{
}

} // verus!
