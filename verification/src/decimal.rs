//! Decimal text for non-negative integers: the `usize` syntax that
//! `str::parse::<usize>` accepts, and the digits `Display` writes.

use vstd::prelude::*;

verus! {

pub open spec fn is_digit(c: char) -> bool {
    '0' <= c && c <= '9'
}

pub open spec fn digit_value(c: char) -> nat {
    (c as int - '0' as int) as nat
}

pub open spec fn digit_char(d: nat) -> char {
    ('0' as int + d) as char
}

pub open spec fn all_digits(s: Seq<char>) -> bool {
    forall|i: int| 0 <= i < s.len() ==> #[trigger] is_digit(s[i])
}

/// The value of a string of decimal digits, most significant first.
pub open spec fn digits_value(s: Seq<char>) -> nat
    decreases s.len(),
{
    if s.len() == 0 {
        0
    } else {
        digits_value(s.drop_last()) * 10 + digit_value(s.last())
    }
}

/// What `str::parse::<usize>` returns for `s`: an optional leading `+`,
/// then at least one decimal digit and nothing else, with a value that fits
/// in `usize`.
pub open spec fn parse_usize_spec(s: Seq<char>) -> Option<usize> {
    let body = if s.len() > 0 && s[0] == '+' { s.drop_first() } else { s };
    if body.len() > 0 && all_digits(body) && digits_value(body) <= usize::MAX {
        Some(digits_value(body) as usize)
    } else {
        None
    }
}

/// The decimal digits of `x`, without leading zeros (`"0"` for zero).
pub open spec fn decimal(x: nat) -> Seq<char>
    decreases x,
{
    if x < 10 {
        seq![digit_char(x)]
    } else {
        decimal(x / 10).push(digit_char(x % 10))
    }
}

proof fn lemma_digits_value_prefix_le(s: Seq<char>, i: int)
    requires
        0 <= i <= s.len(),
    ensures
        digits_value(s.take(i)) <= digits_value(s),
    decreases s.len(),
{
    if i < s.len() {
        assert(s.take(i) =~= s.drop_last().take(i));
        lemma_digits_value_prefix_le(s.drop_last(), i);
        assert(digits_value(s) >= digits_value(s.drop_last()) * 10);
    } else {
        assert(s.take(i) =~= s);
    }
}

/// `str::parse::<usize>` on the characters `chars[from..to]`.
pub fn parse_usize(chars: &[char], from: usize, to: usize) -> (r: Option<usize>)
    requires
        from <= to <= chars@.len(),
    ensures
        r == parse_usize_spec(chars@.subrange(from as int, to as int)),
{
    let ghost s = chars@.subrange(from as int, to as int);
    let mut start = from;
    if from < to && chars[from] == '+' {
        start = from + 1;
    }
    let ghost body = chars@.subrange(start as int, to as int);
    assert(body =~= (if s.len() > 0 && s[0] == '+' { s.drop_first() } else { s }));
    if start == to {
        return None;
    }
    let mut val: usize = 0;
    let mut i = start;
    while i < to
        invariant
            start <= i <= to <= chars@.len(),
            start < to,
            s == chars@.subrange(from as int, to as int),
            body == chars@.subrange(start as int, to as int),
            body == (if s.len() > 0 && s[0] == '+' { s.drop_first() } else { s }),
            all_digits(chars@.subrange(start as int, i as int)),
            val as nat == digits_value(chars@.subrange(start as int, i as int)),
        decreases to - i,
    {
        let c = chars[i];
        let ghost pre = chars@.subrange(start as int, i as int);
        let ghost next = chars@.subrange(start as int, i + 1);
        assert(next.drop_last() =~= pre);
        if !('0' <= c && c <= '9') {
            assert(body[i - start] == c);
            assert(!is_digit(body[i - start]));
            return None;
        }
        let d = (c as u32 - '0' as u32) as usize;
        assert(digits_value(next) == digits_value(pre) * 10 + d);
        proof {
            assert(next.take(i + 1 - start) =~= next);
            assert(body.take(i + 1 - start) =~= next);
        }
        let m = match val.checked_mul(10) {
            Some(m) => m,
            None => {
                proof {
                    if all_digits(body) {
                        lemma_digits_value_prefix_le(body, i + 1 - start);
                    }
                }
                return None;
            },
        };
        val = match m.checked_add(d) {
            Some(v) => v,
            None => {
                proof {
                    if all_digits(body) {
                        lemma_digits_value_prefix_le(body, i + 1 - start);
                    }
                }
                return None;
            },
        };
        i = i + 1;
    }
    Some(val)
}

/// Append the decimal digits of `x` to `s`.
pub fn push_decimal(s: &mut String, x: usize)
    ensures
        final(s)@ == old(s)@ + decimal(x as nat),
    decreases x,
{
    if x >= 10 {
        push_decimal(s, x / 10);
    }
    let d = x % 10;
    let t: &str = if d == 0 {
        proof { reveal_strlit("0"); }
        "0"
    } else if d == 1 {
        proof { reveal_strlit("1"); }
        "1"
    } else if d == 2 {
        proof { reveal_strlit("2"); }
        "2"
    } else if d == 3 {
        proof { reveal_strlit("3"); }
        "3"
    } else if d == 4 {
        proof { reveal_strlit("4"); }
        "4"
    } else if d == 5 {
        proof { reveal_strlit("5"); }
        "5"
    } else if d == 6 {
        proof { reveal_strlit("6"); }
        "6"
    } else if d == 7 {
        proof { reveal_strlit("7"); }
        "7"
    } else if d == 8 {
        proof { reveal_strlit("8"); }
        "8"
    } else {
        proof { reveal_strlit("9"); }
        "9"
    };
    assert(t@ =~= seq![digit_char(d as nat)]);
    s.append(t);
    assert(s@ =~= old(s)@ + decimal(x as nat));
}


/// `decimal(x)` is a non-empty string of digits whose value is `x`.
pub proof fn lemma_decimal_digits(x: nat)
    ensures
        decimal(x).len() > 0,
        all_digits(decimal(x)),
        digits_value(decimal(x)) == x,
    decreases x,
{
    if x >= 10 {
        lemma_decimal_digits(x / 10);
        let d = decimal(x / 10);
        assert(decimal(x).drop_last() =~= d);
        let r = x % 10;
        assert(digit_value(digit_char(r)) == r);
        assert(x == (x / 10) * 10 + r) by (nonlinear_arith) requires r == x % 10;
        assert(decimal(x).last() == digit_char(r));
        assert(digits_value(decimal(x)) == digits_value(decimal(x).drop_last()) * 10 + digit_value(decimal(x).last()));
        assert(digits_value(decimal(x).drop_last()) == x / 10);
        assert forall|i: int| 0 <= i < decimal(x).len() implies #[trigger] is_digit(decimal(x)[i]) by {
            if i < d.len() {
                assert(decimal(x)[i] == d[i]);
            }
        }
    } else {
        assert(decimal(x).drop_last() =~= Seq::<char>::empty());
        assert(digits_value(decimal(x).drop_last()) == 0);
        assert(digit_value(digit_char(x)) == x);
    }
}

/// Reading back what `Display` writes gives the number: `parse::<usize>`
/// of the decimal digits of `x` is `x`.
pub proof fn lemma_parse_decimal(x: usize)
    ensures
        parse_usize_spec(decimal(x as nat)) == Some(x),
{
    lemma_decimal_digits(x as nat);
    assert(is_digit(decimal(x as nat)[0]));
}

} // verus!
