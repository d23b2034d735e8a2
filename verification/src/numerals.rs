//! Decimal numerals: the canonical digit string of an integer, the parse
//! of a digit run, and the proof that the two are inverse to each other.

use vstd::prelude::*;

verus! {

/// One of the ten decimal digit characters.
pub open spec fn is_digit(c: char) -> bool {
    '0' <= c && c <= '9'
}

/// Numeric value of a digit character.
pub open spec fn digit_val(c: char) -> nat {
    (c as nat - '0' as nat) as nat
}

/// Digit character of a value below ten.
pub open spec fn digit_char(d: nat) -> char {
    if d == 0 {
        '0'
    } else if d == 1 {
        '1'
    } else if d == 2 {
        '2'
    } else if d == 3 {
        '3'
    } else if d == 4 {
        '4'
    } else if d == 5 {
        '5'
    } else if d == 6 {
        '6'
    } else if d == 7 {
        '7'
    } else if d == 8 {
        '8'
    } else {
        '9'
    }
}

/// Decimal representation of `n`, most significant digit first, without
/// leading zeroes (`0` itself is the single digit `0`).
pub open spec fn dec_rep(n: nat) -> Seq<char>
    decreases n,
{
    if n < 10 {
        seq![digit_char(n)]
    } else {
        dec_rep(n / 10).push(digit_char(n % 10))
    }
}

/// Every character of `s` is a decimal digit.
pub open spec fn all_digits(s: Seq<char>) -> bool {
    forall|i: int| 0 <= i < s.len() ==> is_digit(s[i])
}

/// Value of a digit string, read in the usual positional way.
pub open spec fn digits_val(s: Seq<char>) -> nat
    decreases s.len(),
{
    if s.len() == 0 {
        0
    } else {
        digits_val(s.drop_last()) * 10 + digit_val(s.last())
    }
}

/// Powers of ten.
pub open spec fn pow10(k: nat) -> nat
    decreases k,
{
    if k == 0 {
        1
    } else {
        10 * pow10((k - 1) as nat)
    }
}

pub proof fn lemma_pow10_pos(k: nat)
    ensures
        pow10(k) >= 1,
    decreases k,
{
    if k > 0 {
        lemma_pow10_pos((k - 1) as nat);
    }
}

/// The digit character of a value below ten stands for that value.
pub proof fn lemma_digit_char_val(d: nat)
    requires
        d < 10,
    ensures
        is_digit(digit_char(d)),
        digit_val(digit_char(d)) == d,
{
    if d == 0 {
        assert(digit_val('0') == 0);
    } else if d == 1 {
        assert(digit_val('1') == 1);
    } else if d == 2 {
        assert(digit_val('2') == 2);
    } else if d == 3 {
        assert(digit_val('3') == 3);
    } else if d == 4 {
        assert(digit_val('4') == 4);
    } else if d == 5 {
        assert(digit_val('5') == 5);
    } else if d == 6 {
        assert(digit_val('6') == 6);
    } else if d == 7 {
        assert(digit_val('7') == 7);
    } else if d == 8 {
        assert(digit_val('8') == 8);
    } else {
        assert(digit_val('9') == 9);
    }
}

/// The canonical digit string of `n` is non-empty, all digits, and stands
/// for `n`.
pub proof fn lemma_dec_rep(n: nat)
    ensures
        dec_rep(n).len() >= 1,
        all_digits(dec_rep(n)),
        digits_val(dec_rep(n)) == n,
    decreases n,
{
    if n < 10 {
        lemma_digit_char_val(n);
        assert(dec_rep(n) =~= seq![digit_char(n)]);
        assert(dec_rep(n).drop_last() =~= Seq::<char>::empty());
        assert(dec_rep(n).last() == digit_char(n));
        assert(digits_val(dec_rep(n)) == digits_val(Seq::<char>::empty()) * 10 + digit_val(
            digit_char(n),
        ));
    } else {
        lemma_dec_rep(n / 10);
        lemma_digit_char_val(n % 10);
        let s = dec_rep(n);
        assert(s =~= dec_rep(n / 10).push(digit_char(n % 10)));
        assert(s.drop_last() =~= dec_rep(n / 10));
        assert(s.last() == digit_char(n % 10));
        assert(digits_val(s) == (n / 10) * 10 + n % 10);
        assert(forall|i: int| 0 <= i < s.len() - 1 ==> #[trigger] s[i] == dec_rep(n / 10)[i]);
    }
}

/// Positional value read from the first digit: the leading digit weighs
/// one power of ten for each digit that follows it.
pub proof fn lemma_digits_val_front(s: Seq<char>)
    requires
        s.len() >= 1,
    ensures
        digits_val(s) == digit_val(s[0]) * pow10((s.len() - 1) as nat) + digits_val(
            s.drop_first(),
        ),
    decreases s.len(),
{
    if s.len() == 1 {
        assert(s.drop_last() =~= Seq::<char>::empty());
        assert(s.drop_first() =~= Seq::<char>::empty());
        assert(s.last() == s[0]);
        assert(digits_val(s) == digits_val(s.drop_last()) * 10 + digit_val(s.last()));
        assert(digits_val(Seq::<char>::empty()) == 0);
        assert(pow10(0) == 1);
        assert(digit_val(s[0]) * 1 == digit_val(s[0]));
    } else {
        let dl = s.drop_last();
        lemma_digits_val_front(dl);
        let k = s.len();
        assert(dl[0] == s[0]);
        assert(s.drop_first().drop_last() =~= dl.drop_first());
        assert(s.drop_first().last() == s.last());
        assert(digits_val(s.drop_first()) == digits_val(dl.drop_first()) * 10 + digit_val(
            s.last(),
        ));
        assert(digits_val(s) == digits_val(dl) * 10 + digit_val(s.last()));
        assert(digits_val(dl) == digit_val(s[0]) * pow10((k - 2) as nat) + digits_val(
            dl.drop_first(),
        ));
        assert(pow10((k - 1) as nat) == 10 * pow10((k - 2) as nat));
        assert(digit_val(s[0]) * (10 * pow10((k - 2) as nat)) == (digit_val(s[0]) * pow10(
            (k - 2) as nat,
        )) * 10) by (nonlinear_arith);
        assert((digit_val(s[0]) * pow10((k - 2) as nat) + digits_val(dl.drop_first())) * 10
            == digit_val(s[0]) * pow10((k - 2) as nat) * 10 + digits_val(dl.drop_first()) * 10)
            by (nonlinear_arith);
        assert(digits_val(s) == digit_val(s[0]) * pow10((k - 2) as nat) * 10 + digits_val(
            dl.drop_first(),
        ) * 10 + digit_val(s.last()));
        assert(digit_val(s[0]) * pow10((k - 1) as nat) == digit_val(s[0]) * pow10(
            (k - 2) as nat,
        ) * 10);
        assert(digits_val(s.drop_first()) == digits_val(dl.drop_first()) * 10 + digit_val(
            s.last(),
        ));
    }
}

/// Run of digits starting at `i`, folded into `acc`; stops at the first
/// non-digit, fails on a value that does not fit a machine word.
pub open spec fn parse_digits_from(s: Seq<char>, i: int, acc: nat) -> Option<(nat, int)>
    decreases s.len() - i,
{
    if i < 0 || i >= s.len() || !is_digit(s[i]) {
        Option::Some((acc, i))
    } else {
        let acc2 = acc * 10 + digit_val(s[i]);
        if acc2 > u64::MAX {
            Option::None
        } else {
            parse_digits_from(s, i + 1, acc2)
        }
    }
}

/// A number token: at least one digit, value within a machine word.
pub open spec fn spec_parse_u64(s: Seq<char>, i: int) -> Option<(nat, int)> {
    if 0 <= i < s.len() && is_digit(s[i]) {
        parse_digits_from(s, i, 0)
    } else {
        Option::None
    }
}

pub proof fn lemma_parse_digits_bounds(s: Seq<char>, i: int, acc: nat)
    requires
        0 <= i <= s.len(),
    ensures
        match parse_digits_from(s, i, acc) {
            Option::Some((v, j)) => i <= j <= s.len() && v <= u64::MAX || acc > u64::MAX,
            Option::None => true,
        },
    decreases s.len() - i,
{
    if i < s.len() && is_digit(s[i]) {
        let acc2 = acc * 10 + digit_val(s[i]);
        if acc2 <= u64::MAX {
            lemma_parse_digits_bounds(s, i + 1, acc2);
        }
    }
}

/// A parsed number token consumes at least one character and stays within
/// the input and the machine word.
pub proof fn lemma_parse_u64_bounds(s: Seq<char>, i: int)
    ensures
        match spec_parse_u64(s, i) {
            Option::Some((v, j)) => i + 1 <= j <= s.len() && v <= u64::MAX,
            Option::None => true,
        },
{
    if 0 <= i < s.len() && is_digit(s[i]) {
        let acc2 = digit_val(s[i]);
        assert(0 * 10 + digit_val(s[i]) == acc2);
        if acc2 <= u64::MAX {
            lemma_parse_digits_bounds(s, i + 1, acc2);
        }
    }
}

/// Folding the exact digit string of a value, bounded by a machine word,
/// recovers that value and stops right after it.
pub proof fn lemma_parse_digits_exact(s: Seq<char>, i: int, acc: nat, ds: Seq<char>)
    requires
        all_digits(ds),
        0 <= i,
        i + ds.len() <= s.len(),
        s.subrange(i, i + ds.len()) == ds,
        i + ds.len() == s.len() || !is_digit(s[i + ds.len()]),
        acc * pow10(ds.len()) + digits_val(ds) <= u64::MAX,
    ensures
        parse_digits_from(s, i, acc) == Option::Some(
            ((acc * pow10(ds.len()) + digits_val(ds)) as nat, i + ds.len()),
        ),
    decreases ds.len(),
{
    if ds.len() == 0 {
        assert(acc * pow10(0) + digits_val(ds) == acc * 1 + 0);
    } else {
        let k = ds.len();
        assert(s[i] == s.subrange(i, i + k as int)[0]);
        assert(s[i] == ds[0]);
        assert(is_digit(ds[0]));
        let d0 = digit_val(ds[0]);
        let acc2 = acc * 10 + d0;
        let rest = ds.drop_first();
        lemma_digits_val_front(ds);
        assert(digits_val(ds) == d0 * pow10((k - 1) as nat) + digits_val(rest));
        assert(acc * pow10(k) == acc * (10 * pow10((k - 1) as nat)));
        assert(acc * (10 * pow10((k - 1) as nat)) == (acc * 10) * pow10((k - 1) as nat))
            by (nonlinear_arith);
        assert((acc * 10) * pow10((k - 1) as nat) + d0 * pow10((k - 1) as nat) == (acc * 10 + d0)
            * pow10((k - 1) as nat)) by (nonlinear_arith);
        assert(acc * pow10(k) + digits_val(ds) == acc2 * pow10((k - 1) as nat) + digits_val(rest));
        lemma_pow10_pos((k - 1) as nat);
        assert(acc2 * 1 <= acc2 * pow10((k - 1) as nat)) by (nonlinear_arith)
            requires
                pow10((k - 1) as nat) >= 1,
                acc2 >= 0,
        ;
        assert(acc2 <= u64::MAX);
        assert(s.subrange(i + 1, i + k as int) =~= rest) by {
            assert(forall|m: int|
                0 <= m < rest.len() ==> #[trigger] s.subrange(i + 1, i + k as int)[m]
                    == s.subrange(i, i + k as int)[m + 1]);
        }
        lemma_parse_digits_exact(s, i + 1, acc2, rest);
    }
}

/// Parsing the canonical digit string of a machine word recovers it.
pub proof fn lemma_parse_u64_exact(s: Seq<char>, i: int, n: u64)
    requires
        0 <= i,
        i + dec_rep(n as nat).len() <= s.len(),
        s.subrange(i, i + dec_rep(n as nat).len()) == dec_rep(n as nat),
        i + dec_rep(n as nat).len() == s.len() || !is_digit(s[i + dec_rep(n as nat).len()]),
    ensures
        spec_parse_u64(s, i) == Option::Some((n as nat, i + dec_rep(n as nat).len())),
{
    let ds = dec_rep(n as nat);
    lemma_dec_rep(n as nat);
    assert(s[i] == s.subrange(i, i + ds.len())[0]);
    assert(is_digit(s[i]));
    assert(0 * pow10(ds.len()) + digits_val(ds) == n);
    lemma_parse_digits_exact(s, i, 0, ds);
}

/// Exec mirror of [`digit_char`].
fn digit_to_char(d: u64) -> (c: char)
    requires
        d < 10,
    ensures
        c == digit_char(d as nat),
{
    if d == 0 {
        '0'
    } else if d == 1 {
        '1'
    } else if d == 2 {
        '2'
    } else if d == 3 {
        '3'
    } else if d == 4 {
        '4'
    } else if d == 5 {
        '5'
    } else if d == 6 {
        '6'
    } else if d == 7 {
        '7'
    } else if d == 8 {
        '8'
    } else {
        '9'
    }
}

/// Exec decision of [`is_digit`].
pub fn is_digit_char(c: char) -> (r: bool)
    ensures
        r == is_digit(c),
{
    '0' <= c && c <= '9'
}

/// Append the canonical decimal digits of `n`.
pub fn push_dec_u64(out: &mut Vec<char>, n: u64)
    ensures
        final(out)@ == old(out)@ + dec_rep(n as nat),
    decreases n,
{
    if n < 10 {
        out.push(digit_to_char(n));
        assert(out@ =~= old(out)@ + dec_rep(n as nat));
    } else {
        push_dec_u64(out, n / 10);
        out.push(digit_to_char(n % 10));
        assert(out@ =~= old(out)@ + dec_rep(n as nat));
    }
}

/// Parse a number token at `i`: the exec mirror of [`spec_parse_u64`].
pub fn parse_u64_at(s: &Vec<char>, i: usize) -> (r: Option<(u64, usize)>)
    requires
        i <= s.len(),
    ensures
        match r {
            Some((v, j)) => spec_parse_u64(s@, i as int) == Option::Some((v as nat, j as int))
                && i < j <= s.len(),
            None => spec_parse_u64(s@, i as int) is None,
        },
{
    if i >= s.len() || !is_digit_char(s[i]) {
        return None;
    }
    let mut acc: u64 = 0;
    let mut j: usize = i;
    loop
        invariant
            i <= j <= s.len(),
            parse_digits_from(s@, i as int, 0) == parse_digits_from(s@, j as int, acc as nat),
            0 <= i < s@.len() && is_digit(s@[i as int]),
        decreases s.len() - j,
    {
        if j >= s.len() || !is_digit_char(s[j]) {
            assert(parse_digits_from(s@, j as int, acc as nat) == Option::Some(
                (acc as nat, j as int),
            ));
            proof {
                lemma_parse_u64_bounds(s@, i as int);
            }
            return Some((acc, j));
        }
        let c = s[j];
        let d: u64 = (c as u64) - ('0' as u64);
        assert(d == digit_val(c));
        let wide: u128 = (acc as u128) * 10 + (d as u128);
        if wide > u64::MAX as u128 {
            assert(parse_digits_from(s@, j as int, acc as nat) is None);
            return None;
        }
        acc = wide as u64;
        j += 1;
    }
}

/// Decimal representation of a signed position: a minus sign before the
/// magnitude when negative.
pub open spec fn dec_rep_i64(n: int) -> Seq<char> {
    if n < 0 {
        seq!['-'] + dec_rep((-n) as nat)
    } else {
        dec_rep(n as nat)
    }
}

/// A signed number token: an optional minus sign, then digits; the value
/// must fit a signed machine word.
pub open spec fn spec_parse_i64(s: Seq<char>, i: int) -> Option<(int, int)> {
    if 0 <= i < s.len() && s[i] == '-' {
        match spec_parse_u64(s, i + 1) {
            Option::Some((v, j)) => if v <= 0x8000000000000000 {
                Option::Some((-(v as int), j))
            } else {
                Option::None
            },
            Option::None => Option::None,
        }
    } else {
        match spec_parse_u64(s, i) {
            Option::Some((v, j)) => if v <= i64::MAX {
                Option::Some((v as int, j))
            } else {
                Option::None
            },
            Option::None => Option::None,
        }
    }
}

/// Parsing the canonical signed digits of a signed word recovers it.
pub proof fn lemma_parse_i64_exact(s: Seq<char>, i: int, n: i64)
    requires
        0 <= i,
        i + dec_rep_i64(n as int).len() <= s.len(),
        s.subrange(i, i + dec_rep_i64(n as int).len()) == dec_rep_i64(n as int),
        i + dec_rep_i64(n as int).len() == s.len() || !is_digit(
            s[i + dec_rep_i64(n as int).len()],
        ),
    ensures
        spec_parse_i64(s, i) == Option::Some((n as int, i + dec_rep_i64(n as int).len())),
{
    let w = dec_rep_i64(n as int);
    if n < 0 {
        let m = (-(n as int)) as nat;
        let ds = dec_rep(m);
        assert(w =~= seq!['-'] + ds);
        assert(s[i] == w[0]);
        assert(s[i] == '-');
        assert(s.subrange(i + 1, i + w.len()) =~= ds) by {
            assert(forall|k: int|
                0 <= k < ds.len() ==> #[trigger] s.subrange(i + 1, i + w.len())[k]
                    == s.subrange(i, i + w.len())[k + 1]);
        }
        assert(m <= 0x8000000000000000);
        lemma_parse_u64_exact(s, i + 1, m as u64);
    } else {
        lemma_dec_rep(n as nat);
        assert(s[i] == s.subrange(i, i + w.len())[0]);
        assert(is_digit(s[i]));
        assert(s[i] != '-');
        lemma_parse_u64_exact(s, i, n as u64);
    }
}

/// Append the canonical decimal digits of a signed position.
pub fn push_dec_i64(out: &mut Vec<char>, n: i64)
    ensures
        final(out)@ == old(out)@ + dec_rep_i64(n as int),
{
    if n < 0 {
        out.push('-');
        let m128: i128 = -(n as i128);
        let m: u64 = m128 as u64;
        assert(m as nat == (-(n as int)) as nat);
        push_dec_u64(out, m);
        assert(out@ =~= old(out)@ + dec_rep_i64(n as int));
    } else {
        push_dec_u64(out, n as u64);
        assert(out@ =~= old(out)@ + dec_rep_i64(n as int));
    }
}

/// Parse a signed number token at `i`: the exec mirror of
/// [`spec_parse_i64`].
pub fn parse_i64_at(s: &Vec<char>, i: usize) -> (r: Option<(i64, usize)>)
    requires
        i <= s.len(),
    ensures
        match r {
            Some((v, j)) => spec_parse_i64(s@, i as int) == Option::Some((v as int, j as int))
                && i < j <= s.len(),
            None => spec_parse_i64(s@, i as int) is None,
        },
{
    if i < s.len() && s[i] == '-' {
        match parse_u64_at(s, i + 1) {
            Some((v, j)) => {
                if v <= 0x8000000000000000 {
                    let w: i64 = (-(v as i128)) as i64;
                    assert(w as int == -(v as int));
                    Some((w, j))
                } else {
                    None
                }
            },
            None => None,
        }
    } else {
        match parse_u64_at(s, i) {
            Some((v, j)) => {
                if v <= i64::MAX as u64 {
                    Some((v as i64, j))
                } else {
                    None
                }
            },
            None => None,
        }
    }
}

} // verus!
