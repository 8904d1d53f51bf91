//! Decimal-digit arithmetic on character sequences: recognizing ASCII digits,
//! reading a digit run as an integer, measuring how many characters an integer
//! prints as, and zero-padded rendering of fractional-second fields.

use vstd::prelude::*;

verus! {

/// An ASCII decimal digit, `'0'` through `'9'`. Other Unicode digit
/// categories are deliberately not recognized.
pub open spec fn is_digit(c: char) -> bool {
    48 <= c as u32 <= 57
}

/// Numeric value of an ASCII digit character.
pub open spec fn digit_val(c: char) -> int {
    c as u32 - 48
}

/// The nonnegative integer denoted by a sequence of ASCII digit characters,
/// most significant first. The empty sequence denotes zero.
pub open spec fn digits_value(s: Seq<char>) -> int
    decreases s.len(),
{
    if s.len() == 0 {
        0
    } else {
        digits_value(s.drop_last()) * 10 + digit_val(s.last())
    }
}

/// Executable form of [`is_digit`].
pub fn is_digit_char(c: char) -> (b: bool)
    ensures
        b == is_digit(c),
{
    let u: u32 = c as u32;
    48 <= u && u <= 57
}

pub proof fn lemma_digits_value_nonneg(s: Seq<char>)
    requires
        forall|k: int| 0 <= k < s.len() ==> is_digit(#[trigger] s[k]),
    ensures
        digits_value(s) >= 0,
    decreases s.len(),
{
    if s.len() > 0 {
        lemma_digits_value_nonneg(s.drop_last());
    }
}

/// Dropping trailing digits can only shrink the denoted value.
pub proof fn lemma_digits_value_prefix(s: Seq<char>, j: int)
    requires
        forall|k: int| 0 <= k < s.len() ==> is_digit(#[trigger] s[k]),
        0 <= j <= s.len(),
    ensures
        digits_value(s.subrange(0, j)) <= digits_value(s),
    decreases s.len() - j,
{
    if j == s.len() {
        assert(s.subrange(0, j) =~= s);
    } else {
        lemma_digits_value_prefix(s, j + 1);
        let p = s.subrange(0, j + 1);
        assert(p.drop_last() =~= s.subrange(0, j));
        lemma_digits_value_nonneg(s.subrange(0, j));
        assert(digits_value(s.subrange(0, j)) <= digits_value(p));
    }
}

/// Reads the digit run `line[start..end]` as an `i64`; `None` exactly when the
/// value exceeds `i64::MAX`. Digit runs carry no sign, so no underflow exists.
pub fn parse_digits(line: &Vec<char>, start: usize, end: usize) -> (r: Option<i64>)
    requires
        start <= end <= line@.len(),
        forall|k: int| start <= k < end ==> is_digit(#[trigger] line@[k]),
    ensures
        ({
            let v = digits_value(line@.subrange(start as int, end as int));
            match r {
                Some(n) => n == v,
                None => v > i64::MAX,
            }
        }),
{
    let ghost whole = line@.subrange(start as int, end as int);
    let mut acc: i64 = 0;
    let mut k: usize = start;
    while k < end
        invariant
            start <= k <= end <= line@.len(),
            forall|j: int| start <= j < end ==> is_digit(#[trigger] line@[j]),
            whole == line@.subrange(start as int, end as int),
            acc == digits_value(line@.subrange(start as int, k as int)),
            acc >= 0,
        decreases end - k,
    {
        let c = line[k];
        let d: i64 = (c as u32 - 48) as i64;
        let ghost prefix = line@.subrange(start as int, k as int);
        let ghost next = line@.subrange(start as int, k as int + 1);
        proof {
            assert(next.drop_last() =~= prefix);
            assert(next.last() == line@[k as int]);
        }
        let step = match acc.checked_mul(10) {
            Some(m) => m.checked_add(d),
            None => None,
        };
        match step {
            Some(n) => {
                acc = n;
                k += 1;
            },
            None => {
                proof {
                    assert(digits_value(next) > i64::MAX);
                    assert forall|j: int| 0 <= j < whole.len() implies is_digit(
                        #[trigger] whole[j],
                    ) by {
                        assert(whole[j] == line@[start + j]);
                    }
                    lemma_digits_value_prefix(whole, k - start + 1);
                    assert(whole.subrange(0, k - start + 1) =~= next);
                }
                return None;
            },
        }
    }
    proof {
        assert(line@.subrange(start as int, end as int) =~= whole);
    }
    Some(acc)
}

/// Number of characters in the decimal rendering of `n` when `n >= 0`.
pub open spec fn spec_digit_count(n: int) -> int
    decreases n,
{
    if n < 10 {
        1
    } else {
        1 + spec_digit_count(n / 10)
    }
}

/// Number of characters in the decimal rendering of `n`, counting a leading
/// minus sign as one character. The length threshold derived from a negative
/// calibration bound therefore includes the sign, matching how the bound
/// itself would print.
pub open spec fn spec_dec_len(n: int) -> int {
    if n < 0 {
        1 + spec_digit_count(-n)
    } else {
        spec_digit_count(n)
    }
}

pub open spec fn pow10(k: nat) -> int
    decreases k,
{
    if k == 0 {
        1
    } else {
        10 * pow10((k - 1) as nat)
    }
}

pub proof fn lemma_digit_count_le(n: int, k: nat)
    requires
        0 <= n < pow10(k),
        k >= 1,
    ensures
        spec_digit_count(n) <= k,
    decreases k,
{
    if n >= 10 {
        assert(pow10(k) == 10 * pow10((k - 1) as nat));
        lemma_digit_count_le(n / 10, (k - 1) as nat);
    }
}

pub proof fn lemma_digit_count_pos(n: int)
    requires
        n >= 0,
    ensures
        spec_digit_count(n) >= 1,
    decreases n,
{
    if n >= 10 {
        lemma_digit_count_pos(n / 10);
    }
}

proof fn lemma_pow10_19()
    ensures
        pow10(19) > i64::MAX,
{
    reveal_with_fuel(pow10, 20);
    assert(pow10(19) == 10_000_000_000_000_000_000int);
}

/// Character count of the decimal rendering of `n`, sign included.
pub fn dec_len(n: i64) -> (r: usize)
    requires
        n > i64::MIN,
    ensures
        r == spec_dec_len(n as int),
        1 <= r <= 20,
{
    let neg = n < 0;
    let mut m: i64 = if neg {
        -n
    } else {
        n
    };
    let ghost m0 = m as int;
    let mut count: usize = 1;
    proof {
        lemma_pow10_19();
        lemma_digit_count_le(m0, 19);
        lemma_digit_count_pos(m0);
    }
    while m >= 10
        invariant
            0 <= m,
            1 <= count,
            count - 1 + spec_digit_count(m as int) == spec_digit_count(m0),
            spec_digit_count(m0) <= 19,
            spec_digit_count(m as int) >= 1,
        decreases m,
    {
        proof {
            lemma_digit_count_pos(m as int / 10);
        }
        m = m / 10;
        count += 1;
    }
    if neg {
        count + 1
    } else {
        count
    }
}

/// The digit character for a value in `0..10`.
pub open spec fn digit_char(d: int) -> char {
    if d == 0 {
        '0'
    } else if d == 1 {
        '1'
    } else if d == 2 {
        '2'
    } else if d == 3 {
        '3'
    } else if d == 4 {
        '4'
    } else if d == 5 {
        '5'
    } else if d == 6 {
        '6'
    } else if d == 7 {
        '7'
    } else if d == 8 {
        '8'
    } else {
        '9'
    }
}

fn digit_char_exec(d: i64) -> (c: char)
    requires
        0 <= d < 10,
    ensures
        c == digit_char(d as int),
{
    match d {
        0 => '0',
        1 => '1',
        2 => '2',
        3 => '3',
        4 => '4',
        5 => '5',
        6 => '6',
        7 => '7',
        8 => '8',
        _ => '9',
    }
}

/// `n` rendered in exactly `width` decimal digits, zero-padded on the left;
/// digits beyond `width` are discarded.
pub open spec fn pad_spec(n: int, width: nat) -> Seq<char>
    decreases width,
{
    if width == 0 {
        Seq::empty()
    } else {
        pad_spec(n / 10, (width - 1) as nat).push(digit_char(n % 10))
    }
}

pub proof fn lemma_pad_spec_len(n: int, width: nat)
    ensures
        pad_spec(n, width).len() == width,
        forall|k: int|
            0 <= k < width ==> is_digit(#[trigger] pad_spec(n, width)[k]) && pad_spec(n, width)[k]
                != '.',
    decreases width,
{
    if width > 0 {
        lemma_pad_spec_len(n / 10, (width - 1) as nat);
    }
}

/// Appends the `width`-digit zero-padded rendering of `n` to `out`.
pub fn push_padded(out: &mut Vec<char>, n: i64, width: usize)
    requires
        n >= 0,
    ensures
        final(out)@ == old(out)@ + pad_spec(n as int, width as nat),
    decreases width,
{
    if width == 0 {
        proof {
            assert(out@ =~= old(out)@ + pad_spec(n as int, 0));
        }
    } else {
        push_padded(out, n / 10, width - 1);
        let c = digit_char_exec(n % 10);
        out.push(c);
        proof {
            assert(out@ =~= old(out)@ + pad_spec(n as int, width as nat));
        }
    }
}

} // verus!
