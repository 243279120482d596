use vstd::prelude::*;
use vstd::arithmetic::div_mod::lemma_fundamental_div_mod_converse;
use vstd::arithmetic::power::pow;
use vstd::arithmetic::mul::lemma_mul_is_associative;
use vstd::arithmetic::mul::lemma_mul_is_distributive_add_other_way;

verus! {

/// The number that `bytes` spell in big-endian order (most significant byte first).
pub open spec fn be_value(bytes: Seq<u8>) -> nat
    decreases bytes.len(),
{
    if bytes.len() == 0 {
        0
    } else {
        be_value(bytes.drop_last()) * 256 + bytes.last() as nat
    }
}

/// `be_value` of eight bytes, written out.
proof fn lemma_be_value_eight(s: Seq<u8>)
    requires
        s.len() == 8,
    ensures
        be_value(s) == (((((((s[0] as nat) * 256 + s[1] as nat) * 256 + s[2] as nat) * 256
            + s[3] as nat) * 256 + s[4] as nat) * 256 + s[5] as nat) * 256 + s[6] as nat) * 256
            + s[7] as nat,
{
    reveal_with_fuel(be_value, 9);
    let s7 = s.drop_last();
    let s6 = s7.drop_last();
    let s5 = s6.drop_last();
    let s4 = s5.drop_last();
    let s3 = s4.drop_last();
    let s2 = s3.drop_last();
    let s1 = s2.drop_last();
    let s0 = s1.drop_last();
    assert(s0.len() == 0);
    assert(s1.last() == s[0]);
    assert(s2.last() == s[1]);
    assert(s3.last() == s[2]);
    assert(s4.last() == s[3]);
    assert(s5.last() == s[4]);
    assert(s6.last() == s[5]);
    assert(s7.last() == s[6]);
}

/// Reads a `u64` from eight big-endian bytes.
pub fn u64_from_be_bytes(bytes: &[u8]) -> (v: u64)
    requires
        bytes@.len() == 8,
    ensures
        v as nat == be_value(bytes@),
{
    let b0 = bytes[0] as u64;
    let b1 = bytes[1] as u64;
    let b2 = bytes[2] as u64;
    let b3 = bytes[3] as u64;
    let b4 = bytes[4] as u64;
    let b5 = bytes[5] as u64;
    let b6 = bytes[6] as u64;
    let b7 = bytes[7] as u64;
    proof {
        lemma_be_value_eight(bytes@);
        assert((b0 << 56u64) | (b1 << 48u64) | (b2 << 40u64) | (b3 << 32u64) | (b4 << 24u64) | (b5
            << 16u64) | (b6 << 8u64) | b7 == (((((((b0 * 256 + b1) * 256 + b2) * 256 + b3) * 256
            + b4) * 256 + b5) * 256 + b6) * 256 + b7)) by (bit_vector)
            requires
                b0 < 256,
                b1 < 256,
                b2 < 256,
                b3 < 256,
                b4 < 256,
                b5 < 256,
                b6 < 256,
                b7 < 256,
        ;
    }
    (b0 << 56u64) | (b1 << 48u64) | (b2 << 40u64) | (b3 << 32u64) | (b4 << 24u64) | (b5 << 16u64)
        | (b6 << 8u64) | b7
}

/// Writes `val` as eight big-endian bytes.
pub fn u64_to_be_bytes(val: u64) -> (bytes: Vec<u8>)
    ensures
        bytes@.len() == 8,
        be_value(bytes@) == val,
{
    let b0 = (val >> 56u64) & 0xff;
    let b1 = (val >> 48u64) & 0xff;
    let b2 = (val >> 40u64) & 0xff;
    let b3 = (val >> 32u64) & 0xff;
    let b4 = (val >> 24u64) & 0xff;
    let b5 = (val >> 16u64) & 0xff;
    let b6 = (val >> 8u64) & 0xff;
    let b7 = val & 0xff;
    proof {
        assert(b0 < 256 && b1 < 256 && b2 < 256 && b3 < 256 && b4 < 256 && b5 < 256 && b6 < 256
            && b7 < 256) by (bit_vector)
            requires
                b0 == (val >> 56u64) & 0xff,
                b1 == (val >> 48u64) & 0xff,
                b2 == (val >> 40u64) & 0xff,
                b3 == (val >> 32u64) & 0xff,
                b4 == (val >> 24u64) & 0xff,
                b5 == (val >> 16u64) & 0xff,
                b6 == (val >> 8u64) & 0xff,
                b7 == val & 0xff,
        ;
        assert(val == (((((((b0 * 256 + b1) * 256 + b2) * 256 + b3) * 256 + b4) * 256 + b5) * 256
            + b6) * 256 + b7)) by (bit_vector)
            requires
                b0 == (val >> 56u64) & 0xff,
                b1 == (val >> 48u64) & 0xff,
                b2 == (val >> 40u64) & 0xff,
                b3 == (val >> 32u64) & 0xff,
                b4 == (val >> 24u64) & 0xff,
                b5 == (val >> 16u64) & 0xff,
                b6 == (val >> 8u64) & 0xff,
                b7 == val & 0xff,
        ;
    }
    let bytes = vec![b0 as u8, b1 as u8, b2 as u8, b3 as u8, b4 as u8, b5 as u8, b6 as u8, b7 as u8];
    proof {
        lemma_be_value_eight(bytes@);
    }
    bytes
}

/// Two byte strings of the same length that spell the same number are equal:
/// eight bytes are the only encoding of their value, so writing a read value
/// gives the bytes back.
pub proof fn law_be_value_injective(a: Seq<u8>, b: Seq<u8>)
    requires
        a.len() == b.len(),
        be_value(a) == be_value(b),
    ensures
        a == b,
    decreases a.len(),
{
    if a.len() > 0 {
        lemma_fundamental_div_mod_converse(
            be_value(a) as int,
            256,
            be_value(a.drop_last()) as int,
            a.last() as int,
        );
        lemma_fundamental_div_mod_converse(
            be_value(b) as int,
            256,
            be_value(b.drop_last()) as int,
            b.last() as int,
        );
        law_be_value_injective(a.drop_last(), b.drop_last());
        assert(a =~= a.drop_last().push(a.last()));
        assert(b =~= b.drop_last().push(b.last()));
    } else {
        assert(a =~= b);
    }
}

/// Eight bytes spell a number that fits in a `u64`.
pub proof fn law_be_value_fits(s: Seq<u8>)
    requires
        s.len() == 8,
    ensures
        be_value(s) <= u64::MAX,
{
    lemma_be_value_eight(s);
}

/// Big-endian order: the first byte is the most significant one, worth
/// `256^(len-1)`, and the rest of the bytes spell the remainder.
pub proof fn law_be_first_byte_most_significant(s: Seq<u8>)
    requires
        s.len() > 0,
    ensures
        be_value(s) == s[0] as nat * pow(256, (s.len() - 1) as nat) + be_value(s.drop_first()),
    decreases s.len(),
{
    if s.len() == 1 {
        assert(s.drop_last().len() == 0);
        assert(s.drop_first().len() == 0);
        assert(be_value(s) == be_value(s.drop_last()) * 256 + s.last() as nat);
        assert(s.last() == s[0]);
        assert(pow(256, 0) == 1) by {
            reveal(pow);
        }
    } else {
        let dl = s.drop_last();
        law_be_first_byte_most_significant(dl);
        assert(dl[0] == s[0]);
        assert(s.drop_first().drop_last() =~= dl.drop_first());
        assert(s.drop_first().last() == s.last());
        let k = (s.len() - 2) as nat;
        assert(pow(256, k + 1) == 256 * pow(256, k)) by {
            reveal(pow);
        }
        let p = pow(256, k) as int;
        let b0 = s[0] as int;
        let rest = be_value(dl.drop_first()) as int;
        let last = s.last() as int;
        assert(be_value(dl) == b0 * p + rest);
        assert(be_value(s) == be_value(dl) * 256 + last);
        assert(be_value(s.drop_first()) == rest * 256 + last);
        assert((b0 * p + rest) * 256 + last == b0 * (256 * p) + (rest * 256 + last))
            by (nonlinear_arith);
        assert((k + 1) as nat == (s.len() - 1) as nat);
    }
}

} // verus!
