use vstd::prelude::*;

verus! {

pub open spec fn is_digit(c: char) -> bool {
    '0' <= c <= '9'
}

pub open spec fn digit_value(c: char) -> int {
    c as int - '0' as int
}

/// A ZIP code: exactly five ASCII digits.
pub open spec fn is_zip(s: Seq<char>) -> bool {
    s.len() == 5 && forall|i: int| 0 <= i < 5 ==> is_digit(#[trigger] s[i])
}

/// The number that a ZIP code's digits spell, leading zeros included.
pub open spec fn zip_key(s: Seq<char>) -> int {
    digit_value(s[0]) * 10000 + digit_value(s[1]) * 1000 + digit_value(s[2]) * 100
        + digit_value(s[3]) * 10 + digit_value(s[4])
}

/// Two ZIP codes with the same number are the same code.
pub proof fn lemma_zip_key_injective(a: Seq<char>, b: Seq<char>)
    requires
        is_zip(a),
        is_zip(b),
        zip_key(a) == zip_key(b),
    ensures
        a == b,
{
    assert(is_digit(a[0]) && is_digit(a[1]) && is_digit(a[2]) && is_digit(a[3]) && is_digit(a[4]));
    assert(is_digit(b[0]) && is_digit(b[1]) && is_digit(b[2]) && is_digit(b[3]) && is_digit(b[4]));
    let (a0, a1, a2, a3, a4) = (
        digit_value(a[0]),
        digit_value(a[1]),
        digit_value(a[2]),
        digit_value(a[3]),
        digit_value(a[4]),
    );
    let (b0, b1, b2, b3, b4) = (
        digit_value(b[0]),
        digit_value(b[1]),
        digit_value(b[2]),
        digit_value(b[3]),
        digit_value(b[4]),
    );
    assert(a0 == b0 && a1 == b1 && a2 == b2 && a3 == b3 && a4 == b4) by (nonlinear_arith)
        requires
            0 <= a0 < 10 && 0 <= a1 < 10 && 0 <= a2 < 10 && 0 <= a3 < 10 && 0 <= a4 < 10,
            0 <= b0 < 10 && 0 <= b1 < 10 && 0 <= b2 < 10 && 0 <= b3 < 10 && 0 <= b4 < 10,
            a0 * 10000 + a1 * 1000 + a2 * 100 + a3 * 10 + a4 == b0 * 10000 + b1 * 1000 + b2 * 100
                + b3 * 10 + b4,
    ;
    assert(a =~= b);
}

/// The number of a ZIP code, or `None` where `s` is not five ASCII digits.
pub fn parse_zip(s: &str) -> (r: Option<u32>)
    ensures
        r is Some <==> is_zip(s@),
        r matches Some(k) ==> k == zip_key(s@),
{
    broadcast use vstd::string::is_ascii_spec_bytes;

    if !s.is_ascii() {
        proof {
            if is_zip(s@) {
                assert forall|i: int| 0 <= i < s@.len() implies '\0' <= #[trigger] s@[i] <= '\u{7f}' by {
                    assert(is_digit(s@[i]));
                }
            }
        }
        return None;
    }
    let bytes = s.as_bytes();
    assert(bytes@ =~= Seq::new(s@.len(), |i| s@[i] as u8));
    if bytes.len() != 5 {
        return None;
    }
    let mut key: u32 = 0;
    let mut i: usize = 0;
    while i < 5
        invariant
            bytes@.len() == 5 == s@.len(),
            bytes@ == Seq::new(s@.len(), |j| s@[j] as u8),
            vstd::string::is_ascii(s),
            0 <= i <= 5,
            forall|j: int| 0 <= j < i ==> is_digit(#[trigger] s@[j]),
            key == digits_prefix(s@, i as int),
            0 <= key < pow10(i as int),
            pow10(i as int) == if i == 0 {
                1int
            } else if i == 1 {
                10
            } else if i == 2 {
                100
            } else if i == 3 {
                1000
            } else if i == 4 {
                10000
            } else {
                100000
            },
        decreases 5 - i,
    {
        let b = bytes[i];
        assert(b == s@[i as int] as u8);
        assert('\0' <= s@[i as int] <= '\u{7f}');
        if b < 48 || b > 57 {
            return None;
        }
        assert(is_digit(s@[i as int]));
        proof {
            let d = b as int - 48;
            assert(d == digit_value(s@[i as int]));
            assert(0 <= key * 10 + d < pow10(i as int) * 10) by (nonlinear_arith)
                requires
                    0 <= key < pow10(i as int),
                    0 <= d < 10,
            ;
        }
        key = key * 10 + (b - 48) as u32;
        i = i + 1;
    }
    assert(zip_key(s@) == digits_prefix(s@, 5)) by {
        reveal_with_fuel(digits_prefix, 6);
    }
    Some(key)
}

/// The number spelled by the first `n` digits of `s`.
pub open spec fn digits_prefix(s: Seq<char>, n: int) -> int
    decreases n,
{
    if n <= 0 {
        0
    } else {
        digits_prefix(s, n - 1) * 10 + digit_value(s[n - 1])
    }
}

pub open spec fn pow10(n: int) -> int
    decreases n,
{
    if n <= 0 {
        1
    } else {
        pow10(n - 1) * 10
    }
}

} // verus!
