//! Decimal and hexadecimal numerals: writing them, and reading an `i64`.

use vstd::prelude::*;

verus! {

/// The digit character of `d` in base 16 (lowercase letters past nine).
pub open spec fn digit_char(d: nat) -> char {
    seq!['0', '1', '2', '3', '4', '5', '6', '7', '8', '9', 'a', 'b', 'c', 'd', 'e', 'f'][d as int]
}

/// `n` written in decimal, without sign or leading zeros (`0` is `"0"`).
pub open spec fn decimal(n: nat) -> Seq<char>
    decreases n,
{
    if n < 10 {
        seq![digit_char(n)]
    } else {
        decimal(n / 10).push(digit_char(n % 10))
    }
}

/// `n` written in lowercase hexadecimal, without prefix or leading zeros, as
/// `format!("{:x}", n)` writes it.
pub open spec fn hex_lower(n: nat) -> Seq<char>
    decreases n,
{
    if n < 16 {
        seq![digit_char(n)]
    } else {
        hex_lower(n / 16).push(digit_char(n % 16))
    }
}

fn digit_char_exec(d: u64) -> (c: char)
    requires
        d < 16,
    ensures
        c == digit_char(d as nat),
{
    let digits: [char; 16] = [
        '0',
        '1',
        '2',
        '3',
        '4',
        '5',
        '6',
        '7',
        '8',
        '9',
        'a',
        'b',
        'c',
        'd',
        'e',
        'f',
    ];
    digits[d as usize]
}

/// The decimal digits of `n`.
pub fn decimal_chars(n: u64) -> (r: Vec<char>)
    ensures
        r@ == decimal(n as nat),
    decreases n,
{
    if n < 10 {
        let mut r: Vec<char> = Vec::new();
        r.push(digit_char_exec(n));
        r
    } else {
        let mut r = decimal_chars(n / 10);
        r.push(digit_char_exec(n % 10));
        r
    }
}

/// The lowercase hexadecimal digits of `n`.
pub fn hex_chars(n: u64) -> (r: Vec<char>)
    ensures
        r@ == hex_lower(n as nat),
    decreases n,
{
    if n < 16 {
        let mut r: Vec<char> = Vec::new();
        r.push(digit_char_exec(n));
        r
    } else {
        let mut r = hex_chars(n / 16);
        r.push(digit_char_exec(n % 16));
        r
    }
}

/// The value of a lowercase hexadecimal digit.
spec fn hex_digit_value(c: char) -> nat {
    if '0' <= c && c <= '9' {
        (c as u32 - '0' as u32) as nat
    } else {
        (c as u32 - 'a' as u32 + 10) as nat
    }
}

proof fn lemma_hex_digit_reads_back(d: nat)
    requires
        d < 16,
    ensures
        hex_digit_value(digit_char(d)) == d,
{
    let ds = seq!['0', '1', '2', '3', '4', '5', '6', '7', '8', '9', 'a', 'b', 'c', 'd', 'e', 'f'];
    assert(digit_char(d) == ds[d as int]);
    if d < 8 {
        if d < 4 {
            if d == 0 { assert(ds[0] == '0'); } else if d == 1 { assert(ds[1] == '1'); }
            else if d == 2 { assert(ds[2] == '2'); } else { assert(ds[3] == '3'); }
        } else {
            if d == 4 { assert(ds[4] == '4'); } else if d == 5 { assert(ds[5] == '5'); }
            else if d == 6 { assert(ds[6] == '6'); } else { assert(ds[7] == '7'); }
        }
    } else {
        if d < 12 {
            if d == 8 { assert(ds[8] == '8'); } else if d == 9 { assert(ds[9] == '9'); }
            else if d == 10 { assert(ds[10] == 'a'); } else { assert(ds[11] == 'b'); }
        } else {
            if d == 12 { assert(ds[12] == 'c'); } else if d == 13 { assert(ds[13] == 'd'); }
            else if d == 14 { assert(ds[14] == 'e'); } else { assert(ds[15] == 'f'); }
        }
    }
}

/// Different numbers are written with different hexadecimal numerals.
pub proof fn lemma_hex_lower_injective(a: nat, b: nat)
    requires
        hex_lower(a) == hex_lower(b),
    ensures
        a == b,
    decreases a,
{
    if a < 16 && b < 16 {
        lemma_hex_digit_reads_back(a);
        lemma_hex_digit_reads_back(b);
        assert(hex_lower(a)[0] == digit_char(a));
        assert(hex_lower(b)[0] == digit_char(b));
    } else if a >= 16 && b >= 16 {
        let ha = hex_lower(a);
        let hb = hex_lower(b);
        assert(ha.last() == hb.last());
        assert(ha.drop_last() =~= hex_lower(a / 16));
        assert(hb.drop_last() =~= hex_lower(b / 16));
        lemma_hex_lower_injective(a / 16, b / 16);
        lemma_hex_digit_reads_back(a % 16);
        lemma_hex_digit_reads_back(b % 16);
        assert(ha.last() == digit_char(a % 16));
        assert(hb.last() == digit_char(b % 16));
        assert(a % 16 == b % 16);
    } else if a < 16 {
        assert(hex_lower(b).len() == hex_lower(b / 16).len() + 1);
        assert(hex_lower(b / 16).len() >= 1) by {
            if b / 16 >= 16 {
                assert(hex_lower(b / 16).len() == hex_lower(b / 256).len() + 1) by {
                    assert((b / 16) / 16 == b / 256);
                }
            }
        }
    } else {
        assert(hex_lower(a).len() == hex_lower(a / 16).len() + 1);
        assert(hex_lower(a / 16).len() >= 1) by {
            if a / 16 >= 16 {
                assert(hex_lower(a / 16).len() == hex_lower((a / 16) / 16).len() + 1);
            }
        }
    }
}

// ---------------------------------------------------------------------------
// Reading an i64
// ---------------------------------------------------------------------------

/// An ASCII decimal digit.
pub open spec fn is_decimal_digit(c: char) -> bool {
    '0' <= c && c <= '9'
}

/// The value of the decimal digit `c`.
pub open spec fn digit_value(c: char) -> int {
    c as int - '0' as int
}

/// The value of a run of decimal digits.
pub open spec fn digits_value(ds: Seq<char>) -> int
    decreases ds.len(),
{
    if ds.len() == 0 {
        0
    } else {
        10 * digits_value(ds.drop_last()) + digit_value(ds.last())
    }
}

/// All of `ds` are decimal digits.
pub open spec fn all_digits(ds: Seq<char>) -> bool {
    forall|i: int| 0 <= i < ds.len() ==> is_decimal_digit(#[trigger] ds[i])
}

/// The text opens with a sign character.
pub open spec fn has_sign(s: Seq<char>) -> bool {
    s.len() > 0 && (s[0] == '+' || s[0] == '-')
}

/// The text after its sign, if it has one.
pub open spec fn unsigned_part(s: Seq<char>) -> Seq<char> {
    if has_sign(s) {
        s.drop_first()
    } else {
        s
    }
}

/// The value that `s` denotes as a signed decimal numeral, sign applied.
pub open spec fn numeral_value(s: Seq<char>) -> int {
    if s.len() > 0 && s[0] == '-' {
        -digits_value(unsigned_part(s))
    } else {
        digits_value(unsigned_part(s))
    }
}

/// What `s.parse::<i64>()` gives: an optional `+` or `-`, then one or more
/// ASCII digits, whose value must lie within `i64`; anything else is an error.
pub open spec fn parse_i64_spec(s: Seq<char>) -> Option<i64> {
    let ds = unsigned_part(s);
    if ds.len() == 0 || !all_digits(ds) {
        None
    } else if i64::MIN <= numeral_value(s) <= i64::MAX {
        Some(numeral_value(s) as i64)
    } else {
        None
    }
}

proof fn lemma_digits_value_step(ds: Seq<char>, k: int)
    requires
        0 <= k < ds.len(),
    ensures
        digits_value(ds.take(k + 1)) == 10 * digits_value(ds.take(k)) + digit_value(ds[k]),
{
    assert(ds.take(k + 1).drop_last() =~= ds.take(k));
}

proof fn lemma_digits_value_mono(ds: Seq<char>, i: int, j: int)
    requires
        0 <= i <= j <= ds.len(),
        all_digits(ds),
    ensures
        0 <= digits_value(ds.take(i)) <= digits_value(ds.take(j)),
    decreases j - i,
{
    if i < j {
        lemma_digits_value_mono(ds, i, j - 1);
        lemma_digits_value_step(ds, j - 1);
        assert(is_decimal_digit(ds[j - 1]));
    } else {
        lemma_digits_value_nonneg(ds, i);
    }
}

proof fn lemma_digits_value_nonneg(ds: Seq<char>, i: int)
    requires
        0 <= i <= ds.len(),
        all_digits(ds),
    ensures
        0 <= digits_value(ds.take(i)),
    decreases i,
{
    if i > 0 {
        lemma_digits_value_nonneg(ds, i - 1);
        lemma_digits_value_step(ds, i - 1);
        assert(is_decimal_digit(ds[i - 1]));
    }
}

/// Reads `s` as a signed decimal `i64`, as `str::parse::<i64>` does.
pub fn parse_i64(s: &Vec<char>) -> (r: Option<i64>)
    ensures
        r == parse_i64_spec(s@),
{
    let n = s.len();
    let signed = n > 0 && (s[0] == '+' || s[0] == '-');
    let negative = n > 0 && s[0] == '-';
    let start: usize = if signed {
        1
    } else {
        0
    };
    let ghost ds = unsigned_part(s@);
    assert(ds =~= s@.subrange(start as int, n as int));
    if start == n {
        return None;
    }
    let mut acc: i128 = 0;
    let mut k: usize = start;
    assert(ds.take(0) =~= Seq::<char>::empty());
    while k < n
        invariant
            start <= k <= n,
            n == s.len(),
            ds == s@.subrange(start as int, n as int),
            ds == unsigned_part(s@),
            negative == (s@.len() > 0 && s@[0] == '-'),
            forall|i: int| 0 <= i < k - start ==> is_decimal_digit(#[trigger] ds[i]),
            negative ==> acc == -digits_value(ds.take(k - start)),
            !negative ==> acc == digits_value(ds.take(k - start)),
            i64::MIN <= acc <= i64::MAX,
        decreases n - k,
    {
        let c = s[k];
        assert(c == ds[k - start]);
        if !('0' <= c && c <= '9') {
            assert(!is_decimal_digit(ds[k - start]));
            return None;
        }
        let d = (c as u32 - '0' as u32) as i128;
        proof {
            lemma_digits_value_step(ds, k - start);
        }
        let next = if negative {
            acc * 10 - d
        } else {
            acc * 10 + d
        };
        if next < i64::MIN as i128 || next > i64::MAX as i128 {
            proof {
                if all_digits(ds) {
                    lemma_digits_value_mono(ds, k - start + 1, ds.len() as int);
                    assert(ds.take(ds.len() as int) =~= ds);
                    assert(digits_value(ds) >= digits_value(ds.take(k - start + 1)));
                    if negative {
                        assert(numeral_value(s@) == -digits_value(ds));
                    } else {
                        assert(numeral_value(s@) == digits_value(ds));
                    }
                }
            }
            return None;
        }
        acc = next;
        k += 1;
    }
    assert(ds.take(ds.len() as int) =~= ds);
    Some(acc as i64)
}

/// The decimal numeral of `v`, with a leading `-` when it is negative, as
/// `v.to_string()` writes it.
pub open spec fn i64_numeral(v: i64) -> Seq<char> {
    if v < 0 {
        seq!['-'] + decimal((-v) as nat)
    } else {
        decimal(v as nat)
    }
}


proof fn lemma_digit_char(d: nat)
    requires
        d < 10,
    ensures
        is_decimal_digit(digit_char(d)),
        digit_value(digit_char(d)) == d,
{
    if d == 0 {
        assert(digit_char(d) == '0');
    } else if d == 1 {
        assert(digit_char(d) == '1');
    } else if d == 2 {
        assert(digit_char(d) == '2');
    } else if d == 3 {
        assert(digit_char(d) == '3');
    } else if d == 4 {
        assert(digit_char(d) == '4');
    } else if d == 5 {
        assert(digit_char(d) == '5');
    } else if d == 6 {
        assert(digit_char(d) == '6');
    } else if d == 7 {
        assert(digit_char(d) == '7');
    } else if d == 8 {
        assert(digit_char(d) == '8');
    } else {
        assert(digit_char(d) == '9');
    }
}

proof fn lemma_decimal_reads_back(n: nat)
    ensures
        decimal(n).len() > 0,
        all_digits(decimal(n)),
        digits_value(decimal(n)) == n,
    decreases n,
{
    if n < 10 {
        lemma_digit_char(n);
        assert(decimal(n).drop_last() =~= Seq::<char>::empty());
        assert(digits_value(decimal(n)) == 10 * digits_value(Seq::<char>::empty()) + digit_value(
            digit_char(n),
        ));
    } else {
        lemma_decimal_reads_back(n / 10);
        lemma_digit_char(n % 10);
        let s = decimal(n);
        assert(s.drop_last() =~= decimal(n / 10));
        assert forall|i: int| 0 <= i < s.len() implies is_decimal_digit(#[trigger] s[i]) by {
            if i < s.len() - 1 {
                assert(s[i] == decimal(n / 10)[i]);
            }
        }
        assert(s.last() == digit_char(n % 10));
        assert(digits_value(s) == 10 * digits_value(decimal(n / 10)) + digit_value(s.last()));
        assert(10 * (n / 10) + n % 10 == n);
    }
}

/// A number written in decimal, with its sign, reads back as itself.
pub proof fn law_i64_numeral_reads_back(v: i64)
    ensures
        parse_i64_spec(i64_numeral(v)) == Some(v),
{
    if v < 0 {
        let m = (-v) as nat;
        lemma_decimal_reads_back(m);
        let s = i64_numeral(v);
        assert(s.drop_first() =~= decimal(m));
        assert(unsigned_part(s) == decimal(m));
    } else {
        lemma_decimal_reads_back(v as nat);
        assert(is_decimal_digit(decimal(v as nat)[0]));
        assert(unsigned_part(i64_numeral(v)) == decimal(v as nat));
    }
}

} // verus!
