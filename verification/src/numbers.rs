//! Reading unsigned numbers from text as `str::parse` and
//! `u32::from_str_radix` do: an optional `+`, then at least one digit, with
//! no overflow.
use vstd::prelude::*;

verus! {

/// The value of a digit in base `radix` (10 or 16), if `c` is one.
pub open spec fn digit_value(c: char, radix: nat) -> Option<nat> {
    if '0' <= c <= '9' {
        Some((c as nat - '0' as nat) as nat)
    } else if radix == 16 && 'a' <= c <= 'f' {
        Some((c as nat - 'a' as nat + 10) as nat)
    } else if radix == 16 && 'A' <= c <= 'F' {
        Some((c as nat - 'A' as nat + 10) as nat)
    } else {
        None
    }
}

/// Every char is a digit in base `radix`.
pub open spec fn all_digits(s: Seq<char>, radix: nat) -> bool {
    forall|i: int| 0 <= i < s.len() ==> #[trigger] digit_value(s[i], radix) is Some
}

/// The number that the digits of `s` write in base `radix`.
pub open spec fn digits_value(s: Seq<char>, radix: nat) -> nat
    decreases s.len(),
{
    if s.len() == 0 {
        0
    } else {
        digits_value(s.drop_last(), radix) * radix + match digit_value(s.last(), radix) {
            Some(d) => d,
            None => 0,
        }
    }
}

/// `s` without a leading `+`.
pub open spec fn unsigned_digits(s: Seq<char>) -> Seq<char> {
    if s.len() > 0 && s[0] == '+' {
        s.drop_first()
    } else {
        s
    }
}

/// The number that `s` writes in base `radix`, if it is at most `max`.
pub open spec fn spec_parse(s: Seq<char>, radix: nat, max: nat) -> Option<nat> {
    let d = unsigned_digits(s);
    if d.len() == 0 || !all_digits(d, radix) || digits_value(d, radix) > max {
        None
    } else {
        Some(digits_value(d, radix))
    }
}

/// The value of one digit in base 10 or 16.
fn digit(c: char, radix: u32) -> (r: Option<u32>)
    requires
        radix == 10 || radix == 16,
    ensures
        r matches Some(d) ==> digit_value(c, radix as nat) == Some(d as nat) && d < radix,
        r is None ==> digit_value(c, radix as nat) is None,
{
    if '0' <= c && c <= '9' {
        Some((c as u32) - ('0' as u32))
    } else if radix == 16 && 'a' <= c && c <= 'f' {
        Some((c as u32) - ('a' as u32) + 10)
    } else if radix == 16 && 'A' <= c && c <= 'F' {
        Some((c as u32) - ('A' as u32) + 10)
    } else {
        None
    }
}

proof fn lemma_digits_prefix(s: Seq<char>, radix: nat, i: int)
    requires
        0 <= i < s.len(),
    ensures
        s.subrange(0, i + 1).drop_last() == s.subrange(0, i),
        s.subrange(0, i + 1).last() == s[i],
{
    assert(s.subrange(0, i + 1).drop_last() =~= s.subrange(0, i));
}

proof fn lemma_digits_monotone(s: Seq<char>, radix: nat, i: int)
    requires
        0 <= i <= s.len(),
        radix >= 1,
    ensures
        digits_value(s.subrange(0, i), radix) <= digits_value(s, radix),
    decreases s.len() - i,
{
    if i < s.len() {
        lemma_digits_monotone(s, radix, i + 1);
        lemma_digits_prefix(s, radix, i);
        let v = digits_value(s.subrange(0, i), radix);
        assert(v * radix >= v) by (nonlinear_arith)
            requires
                radix >= 1,
        ;
    } else {
        assert(s.subrange(0, i) =~= s);
    }
}

/// Reads a `usize` written in decimal, as `str::parse::<usize>` does.
pub fn parse_usize(s: &[char]) -> (r: Option<usize>)
    ensures
        r matches Some(v) ==> spec_parse(s@, 10, usize::MAX as nat) == Some(v as nat),
        r is None ==> spec_parse(s@, 10, usize::MAX as nat) is None,
{
    match parse_radix(s, 10, usize::MAX as u64) {
        Some(v) => Some(v as usize),
        None => None,
    }
}

/// Reads a `u32` written in hexadecimal, as `u32::from_str_radix(s, 16)` does.
pub fn parse_hex_u32(s: &[char]) -> (r: Option<u32>)
    ensures
        r matches Some(v) ==> spec_parse(s@, 16, u32::MAX as nat) == Some(v as nat),
        r is None ==> spec_parse(s@, 16, u32::MAX as nat) is None,
{
    match parse_radix(s, 16, u32::MAX as u64) {
        Some(v) => Some(v as u32),
        None => None,
    }
}

/// Reads a `u32` written in decimal, as `str::parse::<u32>` does.
pub fn parse_u32(s: &[char]) -> (r: Option<u32>)
    ensures
        r matches Some(v) ==> spec_parse(s@, 10, u32::MAX as nat) == Some(v as nat),
        r is None ==> spec_parse(s@, 10, u32::MAX as nat) is None,
{
    match parse_radix(s, 10, u32::MAX as u64) {
        Some(v) => Some(v as u32),
        None => None,
    }
}

/// `value * radix + digit`, if it is at most `max`.
fn next_value(value: u64, radix: u32, digit: u32, max: u64) -> (r: Option<u64>)
    requires
        radix == 10 || radix == 16,
        digit < radix,
    ensures
        r matches Some(v) ==> v == value * radix + digit && v <= max,
        r is None ==> value * radix + digit > max,
{
    match value.checked_mul(radix as u64) {
        Some(m) => match m.checked_add(digit as u64) {
            Some(v) => if v <= max {
                Some(v)
            } else {
                None
            },
            None => None,
        },
        None => {
            assert(value * radix + digit > max) by (nonlinear_arith)
                requires
                    value * radix > u64::MAX,
                    max <= u64::MAX,
                    digit >= 0,
            ;
            None
        },
    }
}

/// Reading one more digit.
proof fn lemma_digits_step(d: Seq<char>, radix: nat, k: int)
    requires
        0 <= k < d.len(),
        all_digits(d.subrange(0, k), radix),
        digit_value(d[k], radix) is Some,
    ensures
        all_digits(d.subrange(0, k + 1), radix),
        digits_value(d.subrange(0, k + 1), radix) == digits_value(d.subrange(0, k), radix) * radix
            + digit_value(d[k], radix)->0,
{
    let next = d.subrange(0, k + 1);
    let prefix = d.subrange(0, k);
    assert(next.drop_last() =~= prefix);
    assert(next.last() == d[k]);
    assert forall|j: int| 0 <= j < next.len() implies #[trigger] digit_value(next[j], radix) is Some by {
        if j < k {
            assert(next[j] == prefix[j]);
        }
    }
}

/// Reads a number in base 10 or 16 that is at most `max`.
fn parse_radix(s: &[char], radix: u32, max: u64) -> (r: Option<u64>)
    requires
        radix == 10 || radix == 16,
    ensures
        r matches Some(v) ==> spec_parse(s@, radix as nat, max as nat) == Some(v as nat) && v <= max,
        r is None ==> spec_parse(s@, radix as nat, max as nat) is None,
{
    let n = s.len();
    let start: usize = if n > 0 && s[0] == '+' {
        1
    } else {
        0
    };
    let ghost d = unsigned_digits(s@);
    proof {
        assert(d =~= s@.subrange(start as int, n as int));
    }
    if start >= n {
        return None;
    }
    let mut value: u64 = 0;
    let mut i: usize = start;
    proof {
        assert(d.subrange(0, 0) =~= Seq::<char>::empty());
    }
    while i < n
        invariant
            radix == 10 || radix == 16,
            n == s@.len(),
            start <= i <= n,
            d == s@.subrange(start as int, n as int),
            d == unsigned_digits(s@),
            all_digits(d.subrange(0, i - start), radix as nat),
            value == digits_value(d.subrange(0, i - start), radix as nat),
            value <= max,
        decreases n - i,
    {
        let ghost k = i - start;
        proof {
            assert(d[k] == s@[i as int]);
        }
        match digit(s[i], radix) {
            Some(dv) => {
                proof {
                    lemma_digits_step(d, radix as nat, k);
                }
                match next_value(value, radix, dv, max) {
                    Some(v) => {
                        value = v;
                    },
                    None => {
                        proof {
                            assert(digit_value(d[k], radix as nat) == Some(dv as nat));
                            assert(digits_value(d.subrange(0, k + 1), radix as nat) > max);
                            lemma_digits_monotone(d, radix as nat, k + 1);
                            assert(d.len() > 0);
                        }
                        return None;
                    },
                }
            },
            None => {
                proof {
                    assert(digit_value(d[k], radix as nat) is None);
                    assert(!all_digits(d, radix as nat));
                }
                return None;
            },
        }
        i = i + 1;
    }
    proof {
        assert(d.subrange(0, n - start) =~= d);
    }
    Some(value)
}

/// The char of a decimal digit.
pub open spec fn digit_char(d: nat) -> char {
    ((48 + d) as u8) as char
}

/// `n` written in decimal, without leading zeros.
pub open spec fn decimal(n: nat) -> Seq<char>
    decreases n,
{
    if n < 10 {
        seq![digit_char(n)]
    } else {
        decimal(n / 10).push(digit_char(n % 10))
    }
}

/// Appends `n` in decimal.
pub fn push_decimal(out: &mut String, n: usize)
    ensures
        final(out)@ == old(out)@ + decimal(n as nat),
    decreases n,
{
    if n >= 10 {
        push_decimal(out, n / 10);
    }
    let d: u8 = (n % 10) as u8;
    let c = (48u8 + d) as char;
    crate::strings::push_char(out, c);
    proof {
        assert(c == digit_char((n % 10) as nat));
        if n >= 10 {
            assert(old(out)@ + decimal(n as nat) =~= old(out)@ + decimal((n / 10) as nat) + seq![c]);
        } else {
            assert(old(out)@ + decimal(n as nat) =~= old(out)@.push(c));
        }
    }
}

} // verus!
