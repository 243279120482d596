use vstd::prelude::*;
use vstd::arithmetic::power2::pow2;
use vstd::arithmetic::power2::lemma_pow2_pos;
use vstd::arithmetic::mul::lemma_mul_inequality;
use vstd::arithmetic::mul::lemma_mul_strict_inequality;
use vstd::arithmetic::mul::lemma_mul_is_distributive_add_other_way;
use vstd::arithmetic::div_mod::lemma_fundamental_div_mod_converse;
use vstd::arithmetic::div_mod::lemma_fundamental_div_mod;
use vstd::arithmetic::div_mod::lemma_div_is_ordered;
use vstd::arithmetic::div_mod::lemma_div_by_multiple;
use vstd::bits::lemma_u64_shl_is_mul;
use vstd::bits::lemma_u64_shr_is_div;
use vstd::bits::lemma_u64_pow2_no_overflow;
use vstd::bits::lemma_u64_mul_pow2_le_max_iff_max_shr;
use crate::id_gen::IdGen;
use crate::storage::Storage;

verus! {

/// The key under which the number of sharding bits is recorded in the storage
/// (the bytes of `shard_bits`).
pub const SHARDING_STORAGE_KEY: [u8; 10] = [115, 104, 97, 114, 100, 95, 98, 105, 116, 115];

/// The shard an id is placed in: the sharding id modulo `2^bits`.
pub open spec fn shard_of(sharding_id: nat, bits: nat) -> nat {
    sharding_id % pow2(bits)
}

/// The id made of a counter value and a shard: the counter in the high bits,
/// the shard in the low `bits` bits.
pub open spec fn compose_id(counter: nat, bits: nat, shard: nat) -> nat {
    counter * pow2(bits) + shard
}

/// The largest counter value whose ids fit in 64 bits when `bits` bits go to the shard.
pub open spec fn max_counter(bits: nat) -> nat {
    u64::MAX as nat / pow2(bits)
}

/// Whether a counter starting at `counter` can be advanced `num` times by `increment`.
pub open spec fn fits(counter: nat, increment: nat, num: nat, bits: nat) -> bool {
    num == 0 || counter + num * increment <= max_counter(bits)
}

/// The ids that `num` successive requests produce, from a counter at `counter`.
pub open spec fn id_sequence(counter: nat, increment: nat, bits: nat, shard: nat, num: nat) -> Seq<nat> {
    Seq::new(num, |i: int| compose_id((counter + (i + 1) * increment) as nat, bits, shard))
}

/// A number of sharding bits with its power of two.
pub struct BitsAndValue {
    bits: u64,
    value: u64,
}

impl BitsAndValue {
    #[verifier::type_invariant]
    spec fn wf(self) -> bool {
        &&& self.bits < 64
        &&& self.value as nat == pow2(self.bits as nat)
    }

    /// The number of sharding bits.
    pub closed spec fn bits(&self) -> u64 {
        self.bits
    }

    /// `2^bits`, the number of shards.
    pub closed spec fn value(&self) -> nat {
        self.value as nat
    }

    /// Makes the pair for `bits` sharding bits.
    pub fn new(bits: u64) -> (r: Self)
        requires
            bits < 64,
        ensures
            r.bits() == bits,
            r.value() == pow2(bits as nat),
    {
        proof {
            lemma_u64_pow2_no_overflow(bits as nat);
            lemma_u64_shl_is_mul(1, bits);
        }
        Self { bits, value: 1u64 << bits }
    }

    /// The number of sharding bits, which is below 64, with `2^bits` as the
    /// number of shards.
    pub fn bit_count(&self) -> (b: u64)
        ensures
            b == self.bits(),
            b < 64,
            self.value() == pow2(b as nat),
    {
        proof {
            use_type_invariant(self);
        }
        self.bits
    }
}

/// An id generator whose counter lives in a storage, so that it survives restarts.
pub struct KonoIdGenerator<S: Storage> {
    storage: S,
    sharding: BitsAndValue,
    increment: u64,
    base: u64,
    key: Vec<u8>,
}

impl<S: Storage> KonoIdGenerator<S> {
    /// The number of bits of an id that hold the shard.
    pub closed spec fn shard_bits(&self) -> nat {
        self.sharding.bits() as nat
    }

    /// The step by which the counter advances for each id.
    pub closed spec fn increment(&self) -> nat {
        self.increment as nat
    }

    /// The counter value used when the storage holds none.
    pub closed spec fn base(&self) -> nat {
        self.base as nat
    }

    /// The storage key of the counter.
    pub closed spec fn key(&self) -> Seq<u8> {
        self.key@
    }

    /// What the storage holds.
    pub closed spec fn stored(&self) -> Map<Seq<u8>, u64> {
        self.storage.contents()
    }

    /// The counter value of the last id handed out, or the base.
    pub open spec fn counter(&self) -> nat {
        if self.stored().contains_key(self.key()) {
            self.stored()[self.key()] as nat
        } else {
            self.base()
        }
    }

    /// Whether two generators have the same configuration.
    pub open spec fn same_config(&self, other: &Self) -> bool {
        &&& self.shard_bits() == other.shard_bits()
        &&& self.increment() == other.increment()
        &&& self.base() == other.base()
        &&& self.key() == other.key()
    }

    /// Records the number of sharding bits in the storage the first time, and
    /// afterwards holds that it has not changed.
    pub fn check_with_previous_sharding_config(storage: &mut S, shard: &BitsAndValue)
        requires
            old(storage).contents().contains_key(SHARDING_STORAGE_KEY@) ==>
                old(storage).contents()[SHARDING_STORAGE_KEY@] == shard.bits(),
        ensures
            final(storage).contents() == old(storage).contents().insert(
                SHARDING_STORAGE_KEY@,
                shard.bits(),
            ),
    {
        match storage.get_u64(SHARDING_STORAGE_KEY.as_slice()) {
            Some(bits) => {
                assert(storage.contents() == storage.contents().insert(SHARDING_STORAGE_KEY@, bits));
            },
            None => {
                storage.save_u64(SHARDING_STORAGE_KEY.as_slice(), shard.bits);
            },
        }
    }

    /// Makes a generator over `storage`, which records `shard_bits` there.
    pub fn new(storage: S, increment: u64, base: u64, shard_bits: u8, key: Vec<u8>) -> (g: Self)
        requires
            shard_bits < 64,
            storage.contents().contains_key(SHARDING_STORAGE_KEY@) ==>
                storage.contents()[SHARDING_STORAGE_KEY@] == shard_bits,
        ensures
            g.shard_bits() == shard_bits,
            g.increment() == increment,
            g.base() == base,
            g.key() == key@,
            g.stored() == storage.contents().insert(SHARDING_STORAGE_KEY@, shard_bits as u64),
    {
        let mut storage = storage;
        let sharding = BitsAndValue::new(shard_bits as u64);
        Self::check_with_previous_sharding_config(&mut storage, &sharding);
        Self { storage, increment, sharding, base, key }
    }
}


/// The id made by shifting `counter` over `bits` bits and putting `shard` in
/// the freed bits is `compose_id(counter, bits, shard)`.
proof fn lemma_shift_or_is_compose(counter: u64, bits: u64, shard: u64)
    requires
        bits < 64,
        counter <= max_counter(bits as nat),
        shard < pow2(bits as nat),
    ensures
        (counter << bits) | shard == compose_id(counter as nat, bits as nat, shard as nat),
{
    lemma_u64_pow2_no_overflow(bits as nat);
    lemma_u64_shr_is_div(u64::MAX, bits);
    lemma_u64_mul_pow2_le_max_iff_max_shr(counter, bits, u64::MAX);
    lemma_u64_shl_is_mul(counter, bits);
    lemma_u64_shl_is_mul(1, bits);
    assert((counter << bits) | shard == (counter << bits) + shard) by (bit_vector)
        requires
            bits < 64,
            shard < (1u64 << bits),
    ;
}

/// `max_counter(bits)` is what shifting `u64::MAX` right by `bits` gives.
proof fn lemma_max_counter_is_shift(bits: u64)
    requires
        bits < 64,
    ensures
        u64::MAX >> bits == max_counter(bits as nat),
{
    lemma_u64_shr_is_div(u64::MAX, bits);
}

impl<S: Storage> IdGen for KonoIdGenerator<S> {
    open spec fn can_issue(&self, num: nat) -> bool {
        fits(self.counter(), self.increment(), num, self.shard_bits())
    }

    /// The request fitted, the ids are the next `num` ids of the sequence for
    /// the shard, the configuration is kept, and the storage holds the counter
    /// advanced `num` times.
    open spec fn issues(&self, after: &Self, sharding_id: u64, num: nat, ids: Seq<u64>) -> bool {
        &&& self.can_issue(num)
        &&& ids.len() == num
        &&& forall|j: int|
            0 <= j < num ==> ids[j] as nat == (#[trigger] id_sequence(
                self.counter(),
                self.increment(),
                self.shard_bits(),
                shard_of(sharding_id as nat, self.shard_bits()),
                num,
            ))[j]
        &&& after.same_config(self)
        &&& after.stored() == self.stored().insert(
            self.key(),
            (self.counter() + num * self.increment()) as u64,
        )
    }

    fn has_capacity(&self, num: usize) -> (ok: bool) {
        proof {
            use_type_invariant(&self.sharding);
        }
        if num == 0 {
            return true;
        }
        let current = self.storage.get_u64(self.key.as_slice()).unwrap_or(self.base);
        proof {
            lemma_max_counter_is_shift(self.sharding.bits);
        }
        let max_id = u64::MAX >> self.sharding.bits;
        let n = num as u128;
        let inc = self.increment as u128;
        assert(n * inc <= 0xffff_ffff_ffff_ffff * 0xffff_ffff_ffff_ffffu128) by (nonlinear_arith)
            requires
                n <= 0xffff_ffff_ffff_ffffu128,
                inc <= 0xffff_ffff_ffff_ffffu128,
        ;
        let total: u128 = current as u128 + n * inc;
        total <= max_id as u128
    }

    fn next_id(&mut self, sharding_id: u64) -> (id: u64)
        ensures
            id == compose_id(
                old(self).counter() + old(self).increment(),
                old(self).shard_bits(),
                shard_of(sharding_id as nat, old(self).shard_bits()),
            ),
            final(self).same_config(old(self)),
            final(self).stored() == old(self).stored().insert(
                old(self).key(),
                (old(self).counter() + old(self).increment()) as u64,
            ),
    {
        proof {
            use_type_invariant(&self.sharding);
            lemma_pow2_pos(self.sharding.bits as nat);
        }
        let shard = sharding_id % self.sharding.value;
        let id = self.storage.get_u64(self.key.as_slice()).unwrap_or(self.base);
        let next = id + self.increment;
        proof {
            lemma_shift_or_is_compose(next, self.sharding.bits, shard);
        }
        let result = (next << self.sharding.bits) | shard;
        self.storage.save_u64(self.key.as_slice(), next);
        result
    }

    fn next_ids(&mut self, sharding_id: u64, num: usize) -> (ids: Vec<u64>)
        ensures
            forall|j: int|
                0 <= j < num ==> ids[j] as nat == (#[trigger] id_sequence(
                    old(self).counter(),
                    old(self).increment(),
                    old(self).shard_bits(),
                    shard_of(sharding_id as nat, old(self).shard_bits()),
                    num as nat,
                ))[j],
            final(self).same_config(old(self)),
            final(self).stored() == old(self).stored().insert(
                old(self).key(),
                (old(self).counter() + num * old(self).increment()) as u64,
            ),
    {
        proof {
            use_type_invariant(&self.sharding);
            lemma_pow2_pos(self.sharding.bits as nat);
        }
        let bits = self.sharding.bits;
        let inc = self.increment;
        let shard = sharding_id % self.sharding.value;
        let mut next = self.storage.get_u64(self.key.as_slice()).unwrap_or(self.base);
        let ghost start = next as nat;
        let ghost seq = id_sequence(start, inc as nat, bits as nat, shard as nat, num as nat);
        let mut r: Vec<u64> = Vec::new();
        let mut i: usize = 0;
        while i < num
            invariant
                i <= num,
                r.len() == i,
                next == start + i * inc,
                bits < 64,
                shard < pow2(bits as nat),
                fits(start, inc as nat, num as nat, bits as nat),
                seq == id_sequence(start, inc as nat, bits as nat, shard as nat, num as nat),
                forall|j: int| 0 <= j < i ==> r[j] as nat == seq[j],
            decreases num - i,
        {
            proof {
                lemma_mul_inequality(i + 1, num as int, inc as int);
                lemma_mul_is_distributive_add_other_way(inc as int, i as int, 1);
            }
            next = next + inc;
            proof {
                lemma_shift_or_is_compose(next, bits, shard);
            }
            r.push((next << bits) | shard);
            i = i + 1;
        }
        self.storage.save_u64(self.key.as_slice(), next);
        r
    }
}


/// An id holds its counter value and its shard apart: dividing by `2^bits`
/// gives the counter back, the remainder gives the shard.
pub proof fn law_id_decomposes(counter: nat, bits: nat, shard: nat)
    requires
        shard < pow2(bits),
    ensures
        compose_id(counter, bits, shard) / pow2(bits) == counter,
        compose_id(counter, bits, shard) % pow2(bits) == shard,
{
    lemma_pow2_pos(bits);
    lemma_fundamental_div_mod_converse(
        compose_id(counter, bits, shard) as int,
        pow2(bits) as int,
        counter as int,
        shard as int,
    );
}

/// Ids are ordered by their counter values first: an id made from a smaller
/// counter is smaller, whatever the two shards are.
pub proof fn law_ids_ordered_by_counter(c1: nat, c2: nat, bits: nat, s1: nat, s2: nat)
    requires
        c1 < c2,
        s1 < pow2(bits),
        s2 < pow2(bits),
    ensures
        compose_id(c1, bits, s1) < compose_id(c2, bits, s2),
{
    lemma_pow2_pos(bits);
    lemma_mul_inequality(c1 + 1int, c2 as int, pow2(bits) as int);
    lemma_mul_is_distributive_add_other_way(pow2(bits) as int, c1 as int, 1);
}

/// Two different (counter, shard) pairs never give the same id.
pub proof fn law_ids_unique(c1: nat, c2: nat, bits: nat, s1: nat, s2: nat)
    requires
        s1 < pow2(bits),
        s2 < pow2(bits),
        c1 != c2 || s1 != s2,
    ensures
        compose_id(c1, bits, s1) != compose_id(c2, bits, s2),
{
    law_id_decomposes(c1, bits, s1);
    law_id_decomposes(c2, bits, s2);
}

/// With a positive increment, the ids of one batch strictly increase.
pub proof fn law_batch_increasing(counter: nat, increment: nat, bits: nat, shard: nat, num: nat)
    requires
        increment > 0,
        shard < pow2(bits),
    ensures
        forall|i: int, j: int|
            0 <= i < j < num ==> #[trigger] id_sequence(counter, increment, bits, shard, num)[i]
                < #[trigger] id_sequence(counter, increment, bits, shard, num)[j],
{
    assert forall|i: int, j: int| 0 <= i < j < num implies #[trigger] id_sequence(
        counter,
        increment,
        bits,
        shard,
        num,
    )[i] < #[trigger] id_sequence(counter, increment, bits, shard, num)[j] by {
        lemma_mul_strict_inequality(i + 1, j + 1, increment as int);
        law_ids_ordered_by_counter(
            (counter + (i + 1) * increment) as nat,
            (counter + (j + 1) * increment) as nat,
            bits,
            shard,
            shard,
        );
    }
}

/// A batch of `n + m` ids is a batch of `n` ids followed by the batch of `m`
/// ids that starts from the counter the first batch left behind; a single id is
/// a batch of one.
pub proof fn law_batch_split(counter: nat, increment: nat, bits: nat, shard: nat, n: nat, m: nat)
    ensures
        id_sequence(counter, increment, bits, shard, n + m) == id_sequence(
            counter,
            increment,
            bits,
            shard,
            n,
        ) + id_sequence(counter + n * increment, increment, bits, shard, m),
        id_sequence(counter, increment, bits, shard, 1) == seq![
            compose_id(counter + increment, bits, shard),
        ],
{
    let whole = id_sequence(counter, increment, bits, shard, n + m);
    let parts = id_sequence(counter, increment, bits, shard, n) + id_sequence(
        counter + n * increment,
        increment,
        bits,
        shard,
        m,
    );
    assert forall|k: int| 0 <= k < n + m implies whole[k] == parts[k] by {
        if k >= n {
            lemma_mul_is_distributive_add_other_way(increment as int, n as int, k - n + 1);
        }
    }
    assert(whole =~= parts);
    assert(id_sequence(counter, increment, bits, shard, 1) =~= seq![
        compose_id(counter + increment, bits, shard),
    ]);
}

/// With a positive increment, each id a generator hands out is larger than
/// the one before it, whatever the sharding ids: the state after one `next_id`
/// (as its contract gives it) hands out a larger id than that call did.
pub proof fn law_successive_ids_increase<S: Storage>(
    before: &KonoIdGenerator<S>,
    after: &KonoIdGenerator<S>,
    first_sharding_id: nat,
    second_sharding_id: nat,
)
    requires
        before.increment() > 0,
        after.same_config(before),
        after.stored() == before.stored().insert(
            before.key(),
            (before.counter() + before.increment()) as u64,
        ),
        before.counter() + before.increment() <= u64::MAX,
    ensures
        after.counter() == before.counter() + before.increment(),
        compose_id(
            before.counter() + before.increment(),
            before.shard_bits(),
            shard_of(first_sharding_id, before.shard_bits()),
        ) < compose_id(
            after.counter() + after.increment(),
            after.shard_bits(),
            shard_of(second_sharding_id, after.shard_bits()),
        ),
{
    lemma_pow2_pos(before.shard_bits());
    law_ids_ordered_by_counter(
        before.counter() + before.increment(),
        after.counter() + after.increment(),
        before.shard_bits(),
        shard_of(first_sharding_id, before.shard_bits()),
        shard_of(second_sharding_id, before.shard_bits()),
    );
}

/// A generator made over a storage that already holds its counter continues
/// from the stored value, not from its base: ids survive a restart.
pub proof fn law_restart_continues<S: Storage>(g: &KonoIdGenerator<S>, previous: Map<Seq<u8>, u64>)
    requires
        g.stored() == previous.insert(SHARDING_STORAGE_KEY@, g.shard_bits() as u64),
        previous.contains_key(g.key()),
        g.key() != SHARDING_STORAGE_KEY@,
    ensures
        g.counter() == previous[g.key()],
{
}

/// Handing out ids rewrites only the counter, so the recorded number of
/// sharding bits stays as `new` left it, where the counter has a key of its own.
pub proof fn law_sharding_record_kept<S: Storage>(before: &KonoIdGenerator<S>, after: &KonoIdGenerator<S>, value: u64)
    requires
        after.stored() == before.stored().insert(before.key(), value),
        before.key() != SHARDING_STORAGE_KEY@,
    ensures
        after.stored().contains_key(SHARDING_STORAGE_KEY@) == before.stored().contains_key(
            SHARDING_STORAGE_KEY@,
        ),
        after.stored()[SHARDING_STORAGE_KEY@] == before.stored()[SHARDING_STORAGE_KEY@],
{
}

/// Two requests in a row hand out what one request for both counts does: the
/// ids of the first followed by those of the second, ending in the same state.
pub proof fn law_issues_compose<S: Storage>(
    g0: &KonoIdGenerator<S>,
    g1: &KonoIdGenerator<S>,
    g2: &KonoIdGenerator<S>,
    sharding_id: u64,
    n: nat,
    m: nat,
    first: Seq<u64>,
    second: Seq<u64>,
)
    requires
        g0.issues(g1, sharding_id, n, first),
        g1.issues(g2, sharding_id, m, second),
    ensures
        g0.issues(g2, sharding_id, n + m, first + second),
{
    let c0 = g0.counter();
    let inc = g0.increment();
    let bits = g0.shard_bits();
    let shard = shard_of(sharding_id as nat, bits);
    // the counter the first request leaves fits in a u64
    if n > 0 {
        lemma_pow2_pos(bits);
        assert(max_counter(bits) <= u64::MAX) by {
            vstd::arithmetic::div_mod::lemma_div_is_ordered_by_denominator(
                u64::MAX as int,
                1,
                pow2(bits) as int,
            );
        }
    }
    assert(c0 + n * inc <= u64::MAX) by {
        if n == 0 {
            assert(n * inc == 0);
        }
    }
    assert(g1.counter() == c0 + n * inc);
    let c1 = g1.counter();
    lemma_mul_is_distributive_add_other_way(inc as int, n as int, m as int);
    assert(fits(c0, inc, n + m, bits)) by {
        if m == 0 {
            assert(m * inc == 0);
        }
    }
    let all = first + second;
    let whole = id_sequence(c0, inc, bits, shard, n + m);
    assert forall|j: int| 0 <= j < n + m implies all[j] as nat == (#[trigger] id_sequence(
        c0,
        inc,
        bits,
        shard,
        n + m,
    ))[j] by {
        if j < n {
            assert(all[j] == first[j]);
            assert(first[j] as nat == id_sequence(c0, inc, bits, shard, n)[j]);
        } else {
            assert(all[j] == second[j - n]);
            assert(second[j - n] as nat == id_sequence(c1, inc, bits, shard, m)[j - n]);
            lemma_mul_is_distributive_add_other_way(inc as int, n as int, j - n + 1);
        }
    }
    assert(g2.stored() =~= g0.stored().insert(g0.key(), (c0 + (n + m) * inc) as u64));
}

/// `n` single requests in a row (`n` at least 1) hand out what one request
/// for `n` ids does:
/// `states[0]` to `states[n]` are the generator before and after each
/// request, and `ids[i]` what request `i` gave.
pub proof fn law_singles_make_batch<S: Storage>(
    states: Seq<KonoIdGenerator<S>>,
    ids: Seq<u64>,
    sharding_id: u64,
)
    requires
        ids.len() >= 1,
        states.len() == ids.len() + 1,
        forall|i: int|
            0 <= i < ids.len() ==> #[trigger] states[i].issues(
                &states[i + 1],
                sharding_id,
                1,
                seq![ids[i]],
            ),
    ensures
        states[0].issues(&states[ids.len() as int], sharding_id, ids.len(), ids),
    decreases ids.len(),
{
    let n = ids.len();
    if n == 1 {
        assert(states[0].issues(&states[1], sharding_id, 1, seq![ids[0]]));
        assert(seq![ids[0]] =~= ids);
    } else {
        let prefix = ids.drop_last();
        law_singles_make_batch(states.drop_last(), prefix, sharding_id);
        assert(states.drop_last()[0] == states[0]);
        assert(states.drop_last()[(n - 1) as int] == states[(n - 1) as int]);
        assert(states[(n - 1) as int].issues(&states[n as int], sharding_id, 1, seq![ids[n - 1]]));
        law_issues_compose(
            &states[0],
            &states[(n - 1) as int],
            &states[n as int],
            sharding_id,
            (n - 1) as nat,
            1,
            prefix,
            seq![ids[n - 1]],
        );
        assert(prefix + seq![ids[n - 1]] =~= ids);
    }
}

/// Every id a request hands out (one from `next_id`, or a batch from
/// `next_ids`) holds the sharding id modulo `2^bits` in its low bits, and above
/// them the counter advanced once more for each id of the request.
pub proof fn law_issued_ids_layout<S: Storage>(
    g: &KonoIdGenerator<S>,
    after: &KonoIdGenerator<S>,
    sharding_id: u64,
    num: nat,
    ids: Seq<u64>,
)
    requires
        g.issues(after, sharding_id, num, ids),
    ensures
        ids.len() == num,
        forall|j: int|
            0 <= j < num ==> (#[trigger] ids[j]) as nat % pow2(g.shard_bits()) == sharding_id as nat
                % pow2(g.shard_bits()) && ids[j] as nat / pow2(g.shard_bits()) == g.counter() + (j
                + 1) * g.increment(),
{
    let bits = g.shard_bits();
    lemma_pow2_pos(bits);
    assert forall|j: int| 0 <= j < num implies (#[trigger] ids[j]) as nat % pow2(bits)
        == sharding_id as nat % pow2(bits) && ids[j] as nat / pow2(bits) == g.counter() + (j + 1)
        * g.increment() by {
        let c = (g.counter() + (j + 1) * g.increment()) as nat;
        assert(ids[j] as nat == id_sequence(
            g.counter(),
            g.increment(),
            bits,
            shard_of(sharding_id as nat, bits),
            num,
        )[j]);
        law_id_decomposes(c, bits, shard_of(sharding_id as nat, bits));
    }
}

/// `x` is at most `m / p` exactly when `x * p` is at most `m`.
proof fn lemma_le_div_iff_mul_le(x: nat, m: nat, p: nat)
    requires
        p > 0,
    ensures
        x <= m / p <==> x * p <= m,
{
    if x * p <= m {
        lemma_div_is_ordered((x * p) as int, m as int, p as int);
        lemma_div_by_multiple(x as int, p as int);
    }
    if x <= m / p {
        lemma_mul_inequality(x as int, (m / p) as int, p as int);
        lemma_fundamental_div_mod(m as int, p as int);
    }
}

/// A generator can hand out `num` more ids exactly when the counter the
/// request ends at, shifted over the shard bits, still fits in 64 bits.
pub proof fn law_capacity<S: Storage>(g: &KonoIdGenerator<S>, num: nat)
    ensures
        g.can_issue(num) <==> (num == 0 || (g.counter() + num * g.increment()) * pow2(
            g.shard_bits(),
        ) <= u64::MAX),
{
    lemma_pow2_pos(g.shard_bits());
    lemma_le_div_iff_mul_le(
        g.counter() + num * g.increment(),
        u64::MAX as nat,
        pow2(g.shard_bits()),
    );
}

/// A fresh generator starts from its base where the storage holds no counter,
/// and from the stored counter otherwise: the ids of its first request sit
/// just above that value.
pub proof fn law_first_request_after_new<S: Storage>(
    g: &KonoIdGenerator<S>,
    after: &KonoIdGenerator<S>,
    previous: Map<Seq<u8>, u64>,
    sharding_id: u64,
    num: nat,
    ids: Seq<u64>,
)
    requires
        g.stored() == previous.insert(SHARDING_STORAGE_KEY@, g.shard_bits() as u64),
        g.key() != SHARDING_STORAGE_KEY@,
        g.issues(after, sharding_id, num, ids),
    ensures
        forall|j: int|
            0 <= j < num ==> (#[trigger] ids[j]) as nat / pow2(g.shard_bits()) == (if previous.contains_key(
                g.key(),
            ) {
                previous[g.key()] as nat
            } else {
                g.base()
            }) + (j + 1) * g.increment(),
{
    law_issued_ids_layout(g, after, sharding_id, num, ids);
}

/// Two requests in a row: the second continues the counter where the first
/// left it, so its ids sit above all of the first request's ids, each with the
/// shard of its own sharding id.
pub proof fn law_requests_continue<S: Storage>(
    g0: &KonoIdGenerator<S>,
    g1: &KonoIdGenerator<S>,
    g2: &KonoIdGenerator<S>,
    first_sharding_id: u64,
    second_sharding_id: u64,
    n: nat,
    m: nat,
    first: Seq<u64>,
    second: Seq<u64>,
)
    requires
        g0.issues(g1, first_sharding_id, n, first),
        g1.issues(g2, second_sharding_id, m, second),
    ensures
        forall|k: int|
            0 <= k < m ==> (#[trigger] second[k]) as nat / pow2(g0.shard_bits()) == g0.counter() + (n
                + k + 1) * g0.increment() && second[k] as nat % pow2(g0.shard_bits())
                == second_sharding_id as nat % pow2(g0.shard_bits()),
        g0.increment() > 0 ==> forall|j: int, k: int|
            0 <= j < n && 0 <= k < m ==> (#[trigger] first[j]) < (#[trigger] second[k]),
{
    let bits = g0.shard_bits();
    let inc = g0.increment();
    let c0 = g0.counter();
    lemma_pow2_pos(bits);
    law_issued_ids_layout(g0, g1, first_sharding_id, n, first);
    law_issued_ids_layout(g1, g2, second_sharding_id, m, second);
    if n > 0 {
        assert(max_counter(bits) <= u64::MAX) by {
            vstd::arithmetic::div_mod::lemma_div_is_ordered_by_denominator(
                u64::MAX as int,
                1,
                pow2(bits) as int,
            );
        }
    }
    assert(c0 + n * inc <= u64::MAX) by {
        if n == 0 {
            assert(n * inc == 0);
        }
    }
    assert(g1.counter() == c0 + n * inc);
    assert forall|k: int| 0 <= k < m implies (#[trigger] second[k]) as nat / pow2(bits) == c0 + (n
        + k + 1) * inc by {
        lemma_mul_is_distributive_add_other_way(inc as int, n as int, k + 1);
    }
    if inc > 0 {
        assert forall|j: int, k: int| 0 <= j < n && 0 <= k < m implies (#[trigger] first[j]) < (
        #[trigger] second[k]) by {
            lemma_mul_strict_inequality(j + 1, n + k + 1, inc as int);
            if second[k] <= first[j] {
                lemma_div_is_ordered(second[k] as int, first[j] as int, pow2(bits) as int);
            }
        }
    }
}

} // verus!
