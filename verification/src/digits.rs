//! Decimal encoding and parsing of sequence numbers.
//!
//! Encoding writes the canonical decimal digits of a number. Parsing accepts
//! what the standard unsigned integer parser accepts: an optional leading
//! plus sign, then one or more digits, with a value that fits in `usize`.

use vstd::prelude::*;

verus! {

pub const SPACE: u8 = 32;

pub const PLUS: u8 = 43;

pub const DIGIT_ZERO: u8 = 48;

pub const DIGIT_NINE: u8 = 57;

pub open spec fn is_digit(b: u8) -> bool {
    DIGIT_ZERO <= b <= DIGIT_NINE
}

pub open spec fn all_digits(s: Seq<u8>) -> bool {
    forall|i: int| 0 <= i < s.len() ==> is_digit(#[trigger] s[i])
}

/// The number whose decimal digits are `s`.
pub open spec fn digits_value(s: Seq<u8>) -> int
    decreases s.len(),
{
    if s.len() == 0 {
        0
    } else {
        digits_value(s.drop_last()) * 10 + (s.last() - DIGIT_ZERO)
    }
}

/// The canonical decimal digits of `n`.
pub open spec fn spec_digits(n: nat) -> Seq<u8>
    decreases n,
{
    if n < 10 {
        seq![(n + DIGIT_ZERO) as u8]
    } else {
        spec_digits(n / 10).push(((n % 10) + DIGIT_ZERO) as u8)
    }
}

/// What parsing `s` as a non-negative decimal number yields: an optional
/// leading plus sign, then at least one digit, with a value within `usize`.
pub open spec fn spec_parse_usize(s: Seq<u8>) -> Option<int> {
    let t = if s.len() > 0 && s[0] == PLUS {
        s.drop_first()
    } else {
        s
    };
    if t.len() > 0 && all_digits(t) && digits_value(t) <= usize::MAX {
        Option::Some(digits_value(t))
    } else {
        Option::None
    }
}

pub proof fn lemma_digits_value_nonneg(s: Seq<u8>)
    requires
        all_digits(s),
    ensures
        digits_value(s) >= 0,
    decreases s.len(),
{
    if s.len() > 0 {
        assert(all_digits(s.drop_last())) by {
            assert(forall|i: int|
                0 <= i < s.drop_last().len() ==> #[trigger] s.drop_last()[i] == s[i]);
        }
        lemma_digits_value_nonneg(s.drop_last());
    }
}

/// Reading further digits can only make the value larger.
pub proof fn lemma_digits_value_take_le(s: Seq<u8>, i: int)
    requires
        all_digits(s),
        0 <= i <= s.len(),
    ensures
        digits_value(s.take(i)) <= digits_value(s),
    decreases s.len(),
{
    if i < s.len() {
        assert(all_digits(s.drop_last())) by {
            assert(forall|j: int|
                0 <= j < s.drop_last().len() ==> #[trigger] s.drop_last()[j] == s[j]);
        }
        assert(s.drop_last().take(i) =~= s.take(i));
        lemma_digits_value_take_le(s.drop_last(), i);
        lemma_digits_value_nonneg(s.drop_last());
        assert(digits_value(s.drop_last()) * 10 >= digits_value(s.drop_last()));
        assert(is_digit(s[s.len() - 1]));
        assert(s.last() - DIGIT_ZERO >= 0);
        assert(digits_value(s) == digits_value(s.drop_last()) * 10 + (s.last() - DIGIT_ZERO));
    } else {
        assert(s.take(i) =~= s);
    }
}

/// The canonical digits of a number are digits, begin with no sign, and
/// read back as that number.
pub proof fn lemma_spec_digits_value(n: nat)
    ensures
        spec_digits(n).len() > 0,
        all_digits(spec_digits(n)),
        digits_value(spec_digits(n)) == n,
    decreases n,
{
    if n < 10 {
        let b = (n + DIGIT_ZERO) as u8;
        assert(spec_digits(n) == seq![b]);
        assert(seq![b].drop_last() =~= Seq::<u8>::empty());
        assert(seq![b].last() == b);
        assert(digits_value(Seq::<u8>::empty()) == 0);
        assert(digits_value(seq![b]) == b - DIGIT_ZERO);
    } else {
        lemma_spec_digits_value(n / 10);
        let d = spec_digits(n / 10);
        let b = ((n % 10) + DIGIT_ZERO) as u8;
        assert(d.push(b).drop_last() =~= d);
        assert(d.push(b).last() == b);
        assert(all_digits(d.push(b))) by {
            assert(forall|i: int| 0 <= i < d.len() ==> #[trigger] d.push(b)[i] == d[i]);
        }
        vstd::arithmetic::div_mod::lemma_fundamental_div_mod(n as int, 10);
    }
}

/// Appends the decimal digits of `n` to `out`.
pub fn push_digits(n: usize, out: &mut Vec<u8>)
    ensures
        final(out)@ == old(out)@ + spec_digits(n as nat),
    decreases n,
{
    if n < 10 {
        out.push((n as u8) + DIGIT_ZERO);
        assert(out@ =~= old(out)@ + spec_digits(n as nat));
    } else {
        push_digits(n / 10, out);
        out.push(((n % 10) as u8) + DIGIT_ZERO);
        assert(out@ =~= old(out)@ + spec_digits(n as nat));
    }
}

/// Parses `s` as a non-negative decimal number, exactly when
/// `spec_parse_usize` allows it.
#[verifier::loop_isolation(false)]
pub fn parse_usize(s: &[u8]) -> (r: Option<usize>)
    ensures
        match r {
            Option::Some(v) => spec_parse_usize(s@) == Option::Some(v as int),
            Option::None => spec_parse_usize(s@) is None,
        },
{
    let mut start: usize = 0;
    if s.len() > 0 && s[0] == PLUS {
        start = 1;
    }
    let ghost t = if s@.len() > 0 && s@[0] == PLUS {
        s@.drop_first()
    } else {
        s@
    };
    proof {
        assert(t =~= s@.skip(start as int));
    }
    if start == s.len() {
        return Option::None;
    }
    let mut val: usize = 0;
    let mut j: usize = start;
    while j < s.len()
        invariant
            start <= j <= s@.len(),
            t == s@.skip(start as int),
            all_digits(t.take(j - start)),
            val == digits_value(t.take(j - start)),
        decreases s@.len() - j,
    {
        let b = s[j];
        proof {
            assert(t[j - start] == s@[j as int]);
        }
        if b < DIGIT_ZERO || b > DIGIT_NINE {
            assert(!all_digits(t));
            return Option::None;
        }
        let d = (b - DIGIT_ZERO) as usize;
        let ghost pre = t.take(j - start);
        proof {
            assert(t.take(j + 1 - start).drop_last() =~= pre);
            assert(t.take(j + 1 - start).last() == t[j - start]);
            assert(all_digits(t.take(j + 1 - start))) by {
                assert(forall|k: int|
                    0 <= k < j + 1 - start ==> #[trigger] t.take(j + 1 - start)[k] == t[k]);
            }
        }
        let next = match val.checked_mul(10) {
            Option::Some(v10) => v10.checked_add(d),
            Option::None => Option::None,
        };
        match next {
            Option::Some(v) => {
                val = v;
            },
            Option::None => {
                proof {
                    assert(digits_value(t.take(j + 1 - start)) > usize::MAX);
                    if all_digits(t) {
                        lemma_digits_value_take_le(t, j + 1 - start);
                    }
                }
                return Option::None;
            },
        }
        j = j + 1;
    }
    proof {
        assert(t.take(j - start) =~= t);
    }
    Option::Some(val)
}

} // verus!
