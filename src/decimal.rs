//! Decimal text of integers, as RESP writes lengths, integers and command operands.
use vstd::prelude::*;

verus! {

pub open spec fn is_digit(b: u8) -> bool {
    48 <= b <= 57
}

pub open spec fn all_digits(t: Seq<u8>) -> bool {
    forall|i: int| 0 <= i < t.len() ==> is_digit(#[trigger] t[i])
}

/// The number that a run of decimal digits spells, most significant first.
pub open spec fn digits_value(t: Seq<u8>) -> nat
    decreases t.len(),
{
    if t.len() == 0 {
        0
    } else {
        digits_value(t.drop_last()) * 10 + (t.last() - 48) as nat
    }
}

/// A run of digits that names a number: at least one digit, nothing else.
pub open spec fn is_numeral(t: Seq<u8>) -> bool {
    t.len() > 0 && all_digits(t)
}

/// The canonical decimal text of a natural number.
pub open spec fn nat_text(n: nat) -> Seq<u8>
    decreases n,
{
    if n < 10 {
        seq![(n + 48) as u8]
    } else {
        nat_text(n / 10).push((n % 10 + 48) as u8)
    }
}

/// The canonical decimal text of an integer: a minus sign before negatives.
pub open spec fn int_text(n: int) -> Seq<u8> {
    if n < 0 {
        seq![45u8] + nat_text((-n) as nat)
    } else {
        nat_text(n as nat)
    }
}

/// The integer that a text names: an optional minus sign, then digits.
pub open spec fn int_text_value(t: Seq<u8>) -> Option<int> {
    if t.len() > 0 && t[0] == 45u8 {
        if is_numeral(t.drop_first()) {
            Some(-digits_value(t.drop_first()))
        } else {
            None
        }
    } else if is_numeral(t) {
        Some(digits_value(t) as int)
    } else {
        None
    }
}

/// The integer that a text names, when it lies within `i64`.
pub open spec fn i64_text_value(t: Seq<u8>) -> Option<int> {
    match int_text_value(t) {
        Some(n) => if i64::MIN <= n <= i64::MAX {
            Some(n)
        } else {
            None
        },
        None => None,
    }
}

pub proof fn lemma_nat_text_numeral(n: nat)
    ensures
        is_numeral(nat_text(n)),
        digits_value(nat_text(n)) == n,
        nat_text(n)[0] != 45u8,
    decreases n,
{
    if n >= 10 {
        lemma_nat_text_numeral(n / 10);
        let t = nat_text(n / 10);
        assert(nat_text(n).drop_last() =~= t);
        assert(nat_text(n)[0] == t[0]);
        assert(nat_text(n).last() == (n % 10 + 48) as u8);
        assert(n == (n / 10) * 10 + n % 10);
        assert(digits_value(nat_text(n)) == digits_value(t) * 10 + (n % 10));
    } else {
        assert(nat_text(n).drop_last() =~= Seq::<u8>::empty());
        assert(digits_value(nat_text(n)) == digits_value(Seq::<u8>::empty()) * 10 + n);
    }
}

pub proof fn lemma_int_text_value(n: int)
    ensures
        int_text_value(int_text(n)) == Some(n),
{
    if n < 0 {
        lemma_nat_text_numeral((-n) as nat);
        assert((seq![45u8] + nat_text((-n) as nat)).drop_first() =~= nat_text((-n) as nat));
    } else {
        lemma_nat_text_numeral(n as nat);
    }
}

/// The decimal text of a number is short: at most a third of the number, plus one.
pub proof fn lemma_nat_text_len(n: nat)
    ensures
        nat_text(n).len() <= n / 3 + 1,
    decreases n,
{
    if n >= 10 {
        lemma_nat_text_len(n / 10);
        assert((n / 10) / 3 + 2 <= n / 3 + 1) by (nonlinear_arith)
            requires n >= 10;
    }
}

pub proof fn lemma_int_text_short(n: int)
    requires
        i64::MIN <= n <= i64::MAX,
    ensures
        int_text(n).len() <= i64::MAX,
{
    if n < 0 {
        lemma_nat_text_len((-n) as nat);
    } else {
        lemma_nat_text_len(n as nat);
    }
}

/// A longer run of digits never names a smaller number.
pub proof fn lemma_digits_value_prefix(t: Seq<u8>, k: int)
    requires
        all_digits(t),
        0 <= k <= t.len(),
    ensures
        digits_value(t.subrange(0, k)) <= digits_value(t),
    decreases t.len(),
{
    if k < t.len() {
        assert(all_digits(t.drop_last()));
        lemma_digits_value_prefix(t.drop_last(), k);
        assert(t.drop_last().subrange(0, k) =~= t.subrange(0, k));
    } else {
        assert(t.subrange(0, k) =~= t);
    }
}

/// Appends the decimal text of `n`.
pub fn push_nat_text(out: &mut Vec<u8>, n: u64)
    ensures
        final(out)@ == old(out)@ + nat_text(n as nat),
    decreases n,
{
    if n >= 10 {
        push_nat_text(out, n / 10);
    }
    out.push((n % 10) as u8 + 48);
    proof {
        if n >= 10 {
            assert(old(out)@ + nat_text(n as nat) =~= old(out)@ + nat_text((n / 10) as nat) + seq![((n % 10) + 48) as u8]);
        } else {
            assert(old(out)@ + nat_text(n as nat) =~= old(out)@.push(((n % 10) + 48) as u8));
        }
    }
}

/// Appends the decimal text of `n`, with a minus sign when it is negative.
pub fn push_int_text(out: &mut Vec<u8>, n: i64)
    ensures
        final(out)@ == old(out)@ + int_text(n as int),
{
    if n < 0 {
        out.push(45u8);
        let magnitude: u64 = (-(n + 1)) as u64 + 1;
        push_nat_text(out, magnitude);
        assert(final(out)@ =~= old(out)@ + int_text(n as int));
    } else {
        push_nat_text(out, n as u64);
    }
}

/// Reads `t[from..to]` as a run of digits; `None` when it is not one or
/// names a number beyond `u64`.
pub fn parse_numeral(t: &[u8], from: usize, to: usize) -> (r: Option<u64>)
    requires
        from <= to <= t@.len(),
    ensures
        ({
            let s = t@.subrange(from as int, to as int);
            match r {
                Some(v) => is_numeral(s) && digits_value(s) == v,
                None => !is_numeral(s) || digits_value(s) > u64::MAX,
            }
        }),
{
    let ghost s = t@.subrange(from as int, to as int);
    if from == to {
        return None;
    }
    let mut acc: u64 = 0;
    let mut i: usize = from;
    while i < to
        invariant
            from <= i <= to <= t@.len(),
            s == t@.subrange(from as int, to as int),
            all_digits(s.subrange(0, i - from)),
            acc == digits_value(s.subrange(0, i - from)),
        decreases to - i,
    {
        let b = t[i];
        if b < 48 || b > 57 {
            assert(s[i - from] == b);
            return None;
        }
        proof {
            let p = s.subrange(0, i + 1 - from);
            assert(p.drop_last() =~= s.subrange(0, i - from));
            assert(p.last() == b);
        }
        let d: u64 = (b - 48) as u64;
        if acc > (u64::MAX - d) / 10 {
            proof {
                let p = s.subrange(0, i + 1 - from);
                assert(all_digits(p));
                assert(digits_value(p) == acc * 10 + d);
                assert(acc * 10 + d > u64::MAX) by (nonlinear_arith)
                    requires acc > (u64::MAX - d) / 10, d <= 9;
                if all_digits(s) {
                    lemma_digits_value_prefix(s, i + 1 - from);
                }
            }
            return None;
        }
        assert(acc * 10 + d <= u64::MAX) by (nonlinear_arith)
            requires acc <= (u64::MAX - d) / 10, d <= 9;
        acc = acc * 10 + d;
        i = i + 1;
    }
    assert(s.subrange(0, to - from) =~= s);
    Some(acc)
}

/// Reads `t[from..to]` as an optional minus sign and digits, within `i64`.
pub fn parse_i64_text(t: &[u8], from: usize, to: usize) -> (r: Option<i64>)
    requires
        from <= to <= t@.len(),
    ensures
        ({
            let s = t@.subrange(from as int, to as int);
            match r {
                Some(n) => i64_text_value(s) == Some(n as int),
                None => i64_text_value(s) is None,
            }
        }),
{
    let ghost s = t@.subrange(from as int, to as int);
    if from < to && t[from] == 45u8 {
        assert(s.drop_first() =~= t@.subrange(from + 1, to as int));
        match parse_numeral(t, from + 1, to) {
            Some(m) => {
                if m <= 9223372036854775807u64 {
                    Some(-(m as i64))
                } else if m == 9223372036854775808u64 {
                    Some(i64::MIN)
                } else {
                    None
                }
            },
            None => None,
        }
    } else {
        match parse_numeral(t, from, to) {
            Some(m) => {
                if m <= 9223372036854775807u64 {
                    Some(m as i64)
                } else {
                    None
                }
            },
            None => None,
        }
    }
}

} // verus!
