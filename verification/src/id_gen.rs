use vstd::prelude::*;

verus! {

/// The id generation trait used by the service.
pub trait IdGen {
    /// Whether `num` more ids can be handed out before the id space runs out.
    spec fn can_issue(&self, num: nat) -> bool;

    /// Whether going from `self` to `after` hands out exactly `ids` for a
    /// request of `num` ids for the shard of `sharding_id`.
    spec fn issues(&self, after: &Self, sharding_id: u64, num: nat, ids: Seq<u64>) -> bool;

    /// Tells whether `num` more ids can be handed out.
    fn has_capacity(&self, num: usize) -> (ok: bool)
        ensures
            ok == self.can_issue(num as nat),
    ;

    /// Generate the next id based on the sharding id.
    fn next_id(&mut self, sharding_id: u64) -> (id: u64)
        requires
            old(self).can_issue(1),
        ensures
            old(self).issues(&*final(self), sharding_id, 1, seq![id]),
    ;

    /// Generate the next ids based on the sharding id and the num of required ids.
    fn next_ids(&mut self, sharding_id: u64, num: usize) -> (ids: Vec<u64>)
        requires
            old(self).can_issue(num as nat),
        ensures
            ids.len() == num,
            old(self).issues(&*final(self), sharding_id, num as nat, ids@),
    ;
}

} // verus!
