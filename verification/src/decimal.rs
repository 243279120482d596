use vstd::prelude::*;
use vstd::string::StrSliceExecFns;

verus! {

/// Whether `c` is one of the ASCII digits `0` to `9`.
pub open spec fn is_ascii_digit(c: char) -> bool {
    '0' <= c && c <= '9'
}

/// The value of a digit character.
pub open spec fn digit_value(c: char) -> nat {
    (c as int - '0' as int) as nat
}

/// The number that a string of decimal digits spells.
pub open spec fn digits_value(s: Seq<char>) -> nat
    decreases s.len(),
{
    if s.len() == 0 {
        0
    } else {
        digits_value(s.drop_last()) * 10 + digit_value(s.last())
    }
}

/// The digits of an unsigned decimal: the text without one leading `+`.
pub open spec fn unsigned_digits(s: Seq<char>) -> Seq<char> {
    if s.len() > 0 && s[0] == '+' {
        s.drop_first()
    } else {
        s
    }
}

/// The number an unsigned decimal spells, as `u64::from_str` and
/// `usize::from_str` read it: an optional `+` and then one or more ASCII digits,
/// nothing else.
pub open spec fn decimal_value(s: Seq<char>) -> Option<nat> {
    let d = unsigned_digits(s);
    if d.len() > 0 && (forall|i: int| 0 <= i < d.len() ==> is_ascii_digit(#[trigger] d[i])) {
        Some(digits_value(d))
    } else {
        None
    }
}

/// The number an unsigned decimal spells, where it is at most `max`.
pub open spec fn decimal_at_most(s: Seq<char>, max: nat) -> Option<nat> {
    match decimal_value(s) {
        Some(n) => if n <= max {
            Some(n)
        } else {
            None
        },
        None => None,
    }
}

/// A prefix of a digit string spells no more than the whole string.
proof fn lemma_digits_prefix_le(t: Seq<char>, k: int)
    requires
        0 <= k <= t.len(),
    ensures
        digits_value(t.take(k)) <= digits_value(t),
    decreases t.len(),
{
    if k < t.len() {
        assert(t.drop_last().take(k) =~= t.take(k));
        lemma_digits_prefix_le(t.drop_last(), k);
    } else {
        assert(t.take(k) =~= t);
    }
}

/// Reads an unsigned decimal into a `u64`; `None` where the text is no decimal
/// or its value does not fit.
pub fn parse_u64(s: &str) -> (r: Option<u64>)
    ensures
        match r {
            Some(v) => decimal_at_most(s@, u64::MAX as nat) == Some(v as nat),
            None => decimal_at_most(s@, u64::MAX as nat) is None,
        },
{
    let len = s.unicode_len();
    let mut i: usize = 0;
    if len > 0 && s.get_char(0) == '+' {
        i = 1;
    }
    let start = i;
    let ghost digits = unsigned_digits(s@);
    assert(digits =~= s@.subrange(start as int, len as int));
    if i >= len {
        return None;
    }
    let mut acc: u64 = 0;
    while i < len
        invariant
            start <= i <= len,
            len == s@.len(),
            digits == s@.subrange(start as int, len as int),
            digits == unsigned_digits(s@),
            acc == digits_value(s@.subrange(start as int, i as int)),
            forall|k: int| start <= k < i ==> is_ascii_digit(#[trigger] s@[k]),
        decreases len - i,
    {
        let c = s.get_char(i);
        if !('0' <= c && c <= '9') {
            assert(!is_ascii_digit(digits[i - start]));
            return None;
        }
        let d = (c as u32 - '0' as u32) as u64;
        assert(s@.subrange(start as int, i + 1).drop_last() =~= s@.subrange(start as int, i as int));
        assert(digits.take(i + 1 - start) =~= s@.subrange(start as int, i + 1));
        if acc > (u64::MAX - d) / 10 {
            proof {
                assert(acc * 10 + d > u64::MAX) by (nonlinear_arith)
                    requires
                        acc > (u64::MAX - d) / 10,
                        d <= 9,
                ;
                lemma_digits_prefix_le(digits, i + 1 - start);
            }
            return None;
        }
        assert(acc * 10 + d <= u64::MAX) by (nonlinear_arith)
            requires
                acc <= (u64::MAX - d) / 10,
                d <= 9,
        ;
        acc = acc * 10 + d;
        i = i + 1;
    }
    assert forall|k: int| 0 <= k < digits.len() implies is_ascii_digit(#[trigger] digits[k]) by {
        assert(digits[k] == s@[k + start]);
    }
    assert(digits =~= s@.subrange(start as int, i as int));
    Some(acc)
}

/// Reads an unsigned decimal into a `usize`; `None` where the text is no
/// decimal or its value does not fit.
pub fn parse_usize(s: &str) -> (r: Option<usize>)
    ensures
        match r {
            Some(v) => decimal_at_most(s@, usize::MAX as nat) == Some(v as nat),
            None => decimal_at_most(s@, usize::MAX as nat) is None,
        },
{
    match parse_u64(s) {
        Some(v) => {
            if v <= usize::MAX as u64 {
                Some(v as usize)
            } else {
                None
            }
        },
        None => None,
    }
}

/// Reading a decimal one character at a time: nothing and a lone `+` are no
/// numbers; one digit, with or without a `+` before it, is its own value;
/// appending a digit to a number multiplies it by ten and adds the digit;
/// appending anything else gives no number; and what is no number (other than
/// the empty text or a lone `+`) stays none whatever follows.
pub proof fn law_decimal_steps(s: Seq<char>, c: char)
    ensures
        decimal_value(Seq::empty()) is None,
        decimal_value(seq!['+']) is None,
        '0' <= c <= '9' ==> decimal_value(seq![c]) == Some((c as int - '0' as int) as nat),
        '0' <= c <= '9' ==> decimal_value(seq!['+', c]) == Some((c as int - '0' as int) as nat),
        '0' <= c <= '9' ==> (decimal_value(s) matches Some(v) ==> decimal_value(s.push(c)) == Some(
            (v * 10 + (c as int - '0' as int)) as nat,
        )),
        !('0' <= c <= '9') ==> decimal_value(s.push(c)) is None,
        decimal_value(s) is None && s != Seq::<char>::empty() && s != seq!['+'] ==> decimal_value(
            s.push(c),
        ) is None,
{
    let t = s.push(c);
    let d = unsigned_digits(s);
    let e = unsigned_digits(t);
    assert(unsigned_digits(Seq::<char>::empty()).len() == 0);
    assert(unsigned_digits(seq!['+']) =~= Seq::<char>::empty());
    assert(unsigned_digits(seq!['+', c]) =~= seq![c]);
    assert(seq![c].drop_last() =~= Seq::<char>::empty());
    if '0' <= c <= '9' {
        assert(seq![c][0] == c);
        assert(unsigned_digits(seq![c]) =~= seq![c]);
        assert(digits_value(seq![c]) == digits_value(Seq::<char>::empty()) * 10 + digit_value(c));
        assert(decimal_value(seq![c]) == Some(digit_value(c)));
        assert(decimal_value(seq!['+', c]) == Some(digit_value(c)));
    }
    if s.len() > 0 {
        assert(e =~= d.push(c));
        assert(e.drop_last() =~= d);
        assert(e[e.len() - 1] == c);
        if decimal_value(s) is None && s != Seq::<char>::empty() && s != seq!['+'] {
            if d.len() == 0 {
                assert(s[0] == '+' && s.len() == 1);
                assert(s =~= seq!['+']);
            }
            assert(d.len() > 0);
            assert(!(forall|i: int| 0 <= i < d.len() ==> is_ascii_digit(#[trigger] d[i])));
            let i = choose|i: int| 0 <= i < d.len() && !is_ascii_digit(#[trigger] d[i]);
            assert(e[i] == d[i]);
            assert(!is_ascii_digit(e[i]));
            assert(decimal_value(t) is None);
        }
    } else {
        assert(s =~= Seq::<char>::empty());
        assert(t =~= seq![c]);
        if c != '+' {
            assert(e =~= seq![c]);
            assert(e[0] == c);
        } else {
            assert(e.len() == 0);
        }
    }
}

/// A decimal is read as a number at most `max` exactly when it is a decimal
/// whose value is at most `max`, and then as that value.
pub proof fn law_decimal_at_most(s: Seq<char>, max: nat)
    ensures
        forall|n: nat|
            #[trigger] decimal_at_most(s, max) == Some(n) <==> (decimal_value(s) == Some(n) && n
                <= max),
        decimal_at_most(s, max) is None <==> (decimal_value(s) is None || (decimal_value(s) matches Some(
            n,
        ) && n > max)),
{
}

} // verus!
