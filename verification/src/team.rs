//! Sides in a fight.

use crate::seqs::lemma_filter_push;
use vstd::prelude::*;

verus! {

/// The side an entity fights on.
#[derive(Clone, Copy, Debug, PartialEq, Eq, Structural)]
pub enum Team {
    Player,
    Mob,
}

impl Team {
    /// Two teams are enemies when they differ.
    pub fn is_enemy(&self, other: Team) -> (r: bool)
        ensures
            r == (*self != other),
    {
        *self != other
    }
}

/// An object that can fight (it has combat stats) and is on a team other than
/// `attacker`'s.
pub open spec fn is_enemy_of(o: (u64, bool, Option<Team>), attacker: Team) -> bool {
    &&& o.1
    &&& o.2 matches Some(t) && t != attacker
}

/// The enemies of `attacker` among `objects`.
pub open spec fn enemies_of(objects: Seq<(u64, bool, Option<Team>)>, attacker: Team) -> Seq<u64> {
    objects.filter(|o: (u64, bool, Option<Team>)| is_enemy_of(o, attacker)).map_values(
        |o: (u64, bool, Option<Team>)| o.0,
    )
}

/// The ids, in order, of the objects that can fight and are on a team other
/// than `attacker`'s; each object is given as its id, whether it has combat
/// stats, and its team if it has one.
pub fn enemies_among(objects: &Vec<(u64, bool, Option<Team>)>, attacker: Team) -> (r: Vec<u64>)
    ensures
        r@ == enemies_of(objects@, attacker),
{
    let ghost pred = |o: (u64, bool, Option<Team>)| is_enemy_of(o, attacker);
    let mut r: Vec<u64> = Vec::new();
    let mut i: usize = 0;
    while i < objects.len()
        invariant
            i <= objects@.len(),
            pred == (|o: (u64, bool, Option<Team>)| is_enemy_of(o, attacker)),
            r@ == objects@.take(i as int).filter(pred).map_values(|o: (u64, bool, Option<Team>)| o.0),
        decreases objects@.len() - i,
    {
        let o = objects[i];
        proof {
            lemma_filter_push(objects@.take(i as int), o, pred);
            assert(objects@.take(i + 1) =~= objects@.take(i as int).push(o));
        }
        let enemy = match o.2 {
            Some(t) => o.1 && t.is_enemy(attacker),
            None => false,
        };
        if enemy {
            r.push(o.0);
            assert(r@ =~= objects@.take(i + 1).filter(pred).map_values(|o: (u64, bool, Option<Team>)| o.0));
        } else {
            assert(r@ =~= objects@.take(i + 1).filter(pred).map_values(|o: (u64, bool, Option<Team>)| o.0));
        }
        i = i + 1;
    }
    assert(objects@.take(i as int) =~= objects@);
    r
}

} // verus!
