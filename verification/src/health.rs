//! Hit points, and the damage waiting to be applied to them.

use vstd::prelude::*;

verus! {

/// The sum of the damages in `d`.
pub open spec fn total_damage(d: Seq<i32>) -> int
    decreases d.len(),
{
    if d.len() == 0 {
        0
    } else {
        total_damage(d.drop_last()) + d.last()
    }
}

/// Hit points and the damage received this turn.
#[derive(Clone, Debug)]
pub struct Health {
    pub hp: i32,
    pub max_hp: i32,
    pub pending_damage: Vec<i32>,
}

impl Default for Health {
    /// No hit points and no damage.
    fn default() -> (r: Health)
        ensures
            r.hp == 0,
            r.max_hp == 0,
            r.pending_damage@ == Seq::<i32>::empty(),
    {
        Health { hp: 0, max_hp: 0, pending_damage: Vec::new() }
    }
}

impl Health {
    /// Takes the damage received this turn off the hit points and forgets it;
    /// true when no hit point is left.
    pub fn apply_pending_damage(&mut self) -> (dead: bool)
        requires
            forall|k: int|
                0 <= k <= old(self).pending_damage@.len() ==> i32::MIN <= #[trigger] total_damage(
                    old(self).pending_damage@.take(k),
                ) <= i32::MAX,
            i32::MIN <= old(self).hp - total_damage(old(self).pending_damage@) <= i32::MAX,
        ensures
            final(self).hp == old(self).hp - total_damage(old(self).pending_damage@),
            final(self).max_hp == old(self).max_hp,
            final(self).pending_damage@ == Seq::<i32>::empty(),
            dead == (final(self).hp <= 0),
    {
        let mut total: i32 = 0;
        let mut k: usize = 0;
        while k < self.pending_damage.len()
            invariant
                k <= self.pending_damage@.len(),
                forall|j: int|
                    0 <= j <= self.pending_damage@.len() ==> i32::MIN <= #[trigger] total_damage(
                        self.pending_damage@.take(j),
                    ) <= i32::MAX,
                total == total_damage(self.pending_damage@.take(k as int)),
            decreases self.pending_damage@.len() - k,
        {
            assert(self.pending_damage@.take(k + 1).drop_last() =~= self.pending_damage@.take(
                k as int,
            ));
            assert(i32::MIN <= total_damage(self.pending_damage@.take(k + 1)) <= i32::MAX);
            total = total + self.pending_damage[k];
            k = k + 1;
        }
        assert(self.pending_damage@.take(k as int) =~= self.pending_damage@);
        self.pending_damage.clear();
        self.hp = self.hp - total;
        self.hp <= 0
    }
}

} // verus!
