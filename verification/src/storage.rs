use vstd::prelude::*;

verus! {

/// A persistent key-value store of `u64` values, keyed by byte strings.
///
/// Users implement it to keep the generator's state where they like; what its
/// methods promise is stated over `contents`, which says what the store holds.
pub trait Storage {
    /// What the store holds, by key. An implementation verified against this
    /// trait defines it; the default body only lets implementations written in
    /// plain Rust leave it out, and nothing checks such an implementation
    /// against the contracts below.
    closed spec fn contents(&self) -> Map<Seq<u8>, u64> {
        Map::empty()
    }

    /// Reads the value stored under `key`, if there is one.
    fn get_u64(&self, key: &[u8]) -> (value: Option<u64>)
        ensures
            value == (if self.contents().contains_key(key@) {
                Some(self.contents()[key@])
            } else {
                None::<u64>
            }),
    ;

    /// Stores `val` under `key`, replacing what was there.
    fn save_u64(&mut self, key: &[u8], val: u64)
        ensures
            final(self).contents() == old(self).contents().insert(key@, val),
    ;
}

/// What a storage gives back for a key is the last value written to it, and a
/// write leaves every other key as it was.
pub proof fn law_read_gives_last_write<S: Storage>(before: &S, after: &S, key: Seq<u8>, val: u64)
    requires
        after.contents() == before.contents().insert(key, val),
    ensures
        after.contents().contains_key(key),
        after.contents()[key] == val,
        forall|other: Seq<u8>|
            other != key ==> (#[trigger] after.contents().contains_key(other)
                == before.contents().contains_key(other) && (after.contents().contains_key(other)
                ==> after.contents()[other] == before.contents()[other])),
{
}

} // verus!
