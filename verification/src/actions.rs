//! What entities ask to do, and how the outcome of an attack or of a move is
//! reported.

use crate::combat::CombatResult;
use crate::game_log::Msg;
use crate::models::ObjKind;
use crate::v2i::V2I;
use vstd::prelude::*;

verus! {

/// Something an entity can do.
#[derive(Clone, Copy, Debug, PartialEq, Eq, Structural)]
pub enum Action {
    Interact(u64),
    Move(V2I),
    Pickup(u64),
}

impl Action {
    pub fn is_interact(&self) -> (r: bool)
        ensures
            r == (*self is Interact),
    {
        match self {
            Action::Interact(_) => true,
            _ => false,
        }
    }

    pub fn is_pickup(&self) -> (r: bool)
        ensures
            r == (*self is Pickup),
    {
        match self {
            Action::Pickup(_) => true,
            _ => false,
        }
    }
}

/// The actions the objects of a cell allow, object by object: using it, then
/// picking it up.
pub open spec fn actions_for(objects: Seq<(u64, ObjKind)>) -> Seq<Action>
    decreases objects.len(),
{
    if objects.len() == 0 {
        Seq::empty()
    } else {
        let (id, kind) = objects.last();
        let a = if kind == ObjKind::Cockpit { seq![Action::Interact(id)] } else { Seq::empty() };
        let b = if kind == ObjKind::Item { seq![Action::Pickup(id)] } else { Seq::empty() };
        actions_for(objects.drop_last()) + a + b
    }
}

/// What the objects of a cell offer: using an object only when it is a
/// cockpit, picking it up only when it is an item, never a move; and every
/// cockpit can be used and every item picked up.
pub proof fn lemma_actions_offered(objects: Seq<(u64, ObjKind)>)
    ensures
        forall|a: Action| #[trigger] actions_for(objects).contains(a) ==> match a {
            Action::Interact(id) => exists|k: int| 0 <= k < objects.len() && objects[k] == (id, ObjKind::Cockpit),
            Action::Pickup(id) => exists|k: int| 0 <= k < objects.len() && objects[k] == (id, ObjKind::Item),
            Action::Move(_) => false,
        },
        forall|k: int|
            0 <= k < objects.len() && #[trigger] objects[k].1 == ObjKind::Cockpit ==> actions_for(objects).contains(
                Action::Interact(objects[k].0),
            ),
        forall|k: int|
            0 <= k < objects.len() && #[trigger] objects[k].1 == ObjKind::Item ==> actions_for(objects).contains(
                Action::Pickup(objects[k].0),
            ),
    decreases objects.len(),
{
    if objects.len() > 0 {
        let init = objects.drop_last();
        let (id, kind) = objects.last();
        lemma_actions_offered(init);
        let a = if kind == ObjKind::Cockpit { seq![Action::Interact(id)] } else { Seq::empty() };
        let b = if kind == ObjKind::Item { seq![Action::Pickup(id)] } else { Seq::empty() };
        let all = actions_for(objects);
        assert(all == actions_for(init) + a + b);
        assert forall|x: Action| #[trigger] all.contains(x) implies match x {
            Action::Interact(id) => exists|k: int| 0 <= k < objects.len() && objects[k] == (id, ObjKind::Cockpit),
            Action::Pickup(id) => exists|k: int| 0 <= k < objects.len() && objects[k] == (id, ObjKind::Item),
            Action::Move(_) => false,
        } by {
            let j = choose|j: int| 0 <= j < all.len() && all[j] == x;
            let n0 = actions_for(init).len();
            if j < n0 {
                assert(actions_for(init)[j] == x);
                assert(actions_for(init).contains(x));
                match x {
                    Action::Interact(i) => {
                        let k = choose|k: int| 0 <= k < init.len() && init[k] == (i, ObjKind::Cockpit);
                        assert(objects[k] == init[k]);
                    },
                    Action::Pickup(i) => {
                        let k = choose|k: int| 0 <= k < init.len() && init[k] == (i, ObjKind::Item);
                        assert(objects[k] == init[k]);
                    },
                    Action::Move(_) => {},
                }
            } else {
                assert(objects[objects.len() - 1] == (id, kind));
            }
        }
        assert forall|k: int|
            0 <= k < objects.len() && #[trigger] objects[k].1 == ObjKind::Cockpit implies all.contains(
                Action::Interact(objects[k].0),
            ) by {
            if k < init.len() {
                assert(init[k] == objects[k]);
                assert(init[k].1 == ObjKind::Cockpit);
                let j = choose|j: int| 0 <= j < actions_for(init).len() && actions_for(init)[j] == Action::Interact(objects[k].0);
                assert(all[j] == Action::Interact(objects[k].0));
            } else {
                assert(all[actions_for(init).len() as int] == Action::Interact(id));
            }
        }
        assert forall|k: int|
            0 <= k < objects.len() && #[trigger] objects[k].1 == ObjKind::Item implies all.contains(
                Action::Pickup(objects[k].0),
            ) by {
            if k < init.len() {
                assert(init[k] == objects[k]);
                assert(init[k].1 == ObjKind::Item);
                let j = choose|j: int| 0 <= j < actions_for(init).len() && actions_for(init)[j] == Action::Pickup(objects[k].0);
                assert(all[j] == Action::Pickup(objects[k].0));
            } else {
                assert(all[(actions_for(init).len() + a.len()) as int] == Action::Pickup(id));
            }
        }
    }
}

/// The actions the objects standing on a cell allow.
pub fn get_available_actions(objects_at_cell: &Vec<(u64, ObjKind)>) -> (r: Vec<Action>)
    ensures
        r@ == actions_for(objects_at_cell@),
        forall|i: int| 0 <= i < r@.len() ==> match #[trigger] r@[i] {
            Action::Interact(id) => exists|k: int|
                0 <= k < objects_at_cell@.len() && objects_at_cell@[k] == (id, ObjKind::Cockpit),
            Action::Pickup(id) => exists|k: int|
                0 <= k < objects_at_cell@.len() && objects_at_cell@[k] == (id, ObjKind::Item),
            Action::Move(_) => false,
        },
{
    proof {
        lemma_actions_offered(objects_at_cell@);
    }
    let mut actions: Vec<Action> = Vec::new();
    let mut i: usize = 0;
    while i < objects_at_cell.len()
        invariant
            i <= objects_at_cell@.len(),
            actions@ == actions_for(objects_at_cell@.take(i as int)),
        decreases objects_at_cell@.len() - i,
    {
        let (id, kind) = objects_at_cell[i];
        assert(objects_at_cell@.take(i + 1).drop_last() =~= objects_at_cell@.take(i as int));
        let ghost before = actions@;
        if kind.can_interact() {
            actions.push(Action::Interact(id));
        }
        if kind.can_pickup() {
            actions.push(Action::Pickup(id));
        }
        assert(actions@ =~= actions_for(objects_at_cell@.take(i + 1)));
        i = i + 1;
    }
    assert(objects_at_cell@.take(objects_at_cell@.len() as int) =~= objects_at_cell@);
    assert forall|i: int| 0 <= i < actions@.len() implies match #[trigger] actions@[i] {
        Action::Interact(id) => exists|k: int|
            0 <= k < objects_at_cell@.len() && objects_at_cell@[k] == (id, ObjKind::Cockpit),
        Action::Pickup(id) => exists|k: int|
            0 <= k < objects_at_cell@.len() && objects_at_cell@[k] == (id, ObjKind::Item),
        Action::Move(_) => false,
    } by {
        assert(actions_for(objects_at_cell@).contains(actions@[i]));
    }
    actions
}

/// The entity wants to step by `dir`.
#[derive(Clone, Copy, Debug)]
pub struct WantMove {
    pub dir: V2I,
}

/// The entity wants to attack `target_id`.
#[derive(Clone, Copy, Debug)]
pub struct WantAttack {
    pub target_id: u64,
}

/// What an entity may do, and what it asked to do.
#[derive(Clone, Debug)]
pub struct EntityActions {
    pub available: Vec<Action>,
    pub requested: Option<Action>,
}

impl EntityActions {
    /// Nothing available, nothing asked.
    pub fn new() -> (r: EntityActions)
        ensures
            r.available@ == Seq::<Action>::empty(),
            r.requested is None,
    {
        EntityActions { available: Vec::new(), requested: None }
    }
}

/// The message the player reads about an attack: the player's own attack, an
/// attack on the player, or none.
pub open spec fn attack_message(attacker_id: u64, defender_id: u64, player_id: u64, result: CombatResult) -> Option<Msg> {
    match result {
        CombatResult::AttackHit { hit_roll, hit_require, damage_roll } => if attacker_id == player_id {
            Some(Msg::PlayerAttack { hit_roll, hit_require, damage: damage_roll })
        } else if defender_id == player_id {
            Some(Msg::PlayerReceiveAttack { hit_roll, hit_require, damage: damage_roll })
        } else {
            None
        },
        CombatResult::Defend { hit_roll, hit_require } => if attacker_id == player_id {
            Some(Msg::PlayerMissAttack { hit_roll, hit_require })
        } else if defender_id == player_id {
            Some(Msg::PlayerReceiveMissAttack { hit_roll, hit_require })
        } else {
            None
        },
    }
}

/// Who the report of an attack speaks of: a message of the player's own
/// attack (a hit or a miss) comes exactly when the player attacked; one of an
/// attack received exactly when someone else attacked the player; a hit is
/// reported exactly on a hit; and no message comes when the player took no part.
/// The rolls reported are those of the attack.
pub proof fn lemma_attack_report(attacker_id: u64, defender_id: u64, player_id: u64, result: CombatResult)
    ensures
        ({
            let m = attack_message(attacker_id, defender_id, player_id, result);
            &&& (m matches Some(Msg::PlayerAttack { .. }) || m matches Some(Msg::PlayerMissAttack { .. }))
                <==> attacker_id == player_id
            &&& (m matches Some(Msg::PlayerReceiveAttack { .. }) || m matches Some(
                Msg::PlayerReceiveMissAttack { .. },
            )) <==> (attacker_id != player_id && defender_id == player_id)
            &&& m is None <==> (attacker_id != player_id && defender_id != player_id)
            &&& (m matches Some(Msg::PlayerAttack { .. }) || m matches Some(Msg::PlayerReceiveAttack { .. }))
                <==> (m is Some && result is AttackHit)
            &&& m matches Some(Msg::PlayerMissAttack { hit_roll, hit_require }) ==> (result matches CombatResult::Defend {
                hit_roll: h,
                hit_require: q,
            } && h == hit_roll && q == hit_require)
            &&& m matches Some(Msg::PlayerReceiveMissAttack { hit_roll, hit_require }) ==> (
            result matches CombatResult::Defend { hit_roll: h, hit_require: q } && h == hit_roll && q == hit_require)
            &&& m matches Some(Msg::PlayerAttack { hit_roll, hit_require, damage }) ==> (
            result matches CombatResult::AttackHit { hit_roll: h, hit_require: q, damage_roll: d } && h == hit_roll
                && q == hit_require && d == damage)
            &&& m matches Some(Msg::PlayerReceiveAttack { hit_roll, hit_require, damage }) ==> (
            result matches CombatResult::AttackHit { hit_roll: h, hit_require: q, damage_roll: d } && h == hit_roll
                && q == hit_require && d == damage)
        }),
{
}

/// What follows an attack: the damage added to the defender's pending damage
/// (one point on a hit, whatever the damage roll), and the message for the
/// player.
pub fn attack_effects(attacker_id: u64, defender_id: u64, player_id: u64, result: &CombatResult) -> (r: (
    Option<i32>,
    Option<Msg>,
))
    ensures
        r.0 == (if result is AttackHit { Some(1i32) } else { None::<i32> }),
        r.1 == attack_message(attacker_id, defender_id, player_id, *result),
        attacker_id == player_id ==> r.1 == Some(
            match *result {
                CombatResult::AttackHit { hit_roll, hit_require, damage_roll } => Msg::PlayerAttack {
                    hit_roll,
                    hit_require,
                    damage: damage_roll,
                },
                CombatResult::Defend { hit_roll, hit_require } => Msg::PlayerMissAttack { hit_roll, hit_require },
            },
        ),
        attacker_id != player_id && defender_id == player_id ==> r.1 == Some(
            match *result {
                CombatResult::AttackHit { hit_roll, hit_require, damage_roll } => Msg::PlayerReceiveAttack {
                    hit_roll,
                    hit_require,
                    damage: damage_roll,
                },
                CombatResult::Defend { hit_roll, hit_require } => Msg::PlayerReceiveMissAttack {
                    hit_roll,
                    hit_require,
                },
            },
        ),
        attacker_id != player_id && defender_id != player_id ==> r.1 is None,
{
    match result {
        CombatResult::AttackHit { hit_roll, hit_require, damage_roll } => {
            let msg = if attacker_id == player_id {
                Some(Msg::PlayerAttack { hit_roll: *hit_roll, hit_require: *hit_require, damage: *damage_roll })
            } else if defender_id == player_id {
                Some(Msg::PlayerReceiveAttack { hit_roll: *hit_roll, hit_require: *hit_require, damage: *damage_roll })
            } else {
                None
            };
            (Some(1), msg)
        },
        CombatResult::Defend { hit_roll, hit_require } => {
            let msg = if attacker_id == player_id {
                Some(Msg::PlayerMissAttack { hit_roll: *hit_roll, hit_require: *hit_require })
            } else if defender_id == player_id {
                Some(Msg::PlayerReceiveMissAttack { hit_roll: *hit_roll, hit_require: *hit_require })
            } else {
                None
            };
            (None, msg)
        },
    }
}

/// How a wanted move ends.
#[derive(Clone, Copy, Debug, PartialEq, Eq, Structural)]
pub enum MoveOutcome {
    /// The cell is blocked.
    Blocked,
    /// Someone to fight stands on the cell: the mover attacks it.
    Attack(u64),
    /// The mover steps onto the cell.
    Step,
}

/// How a move onto a cell ends, given whether the cell can be walked on and
/// the first enemy standing on it, if any; with the message the player reads
/// when the mover is the player.
pub fn move_outcome(is_player: bool, walkable: bool, enemy: Option<u64>) -> (r: (MoveOutcome, Option<Msg>))
    ensures
        r.0 == (if !walkable {
            MoveOutcome::Blocked
        } else {
            match enemy {
                Some(t) => MoveOutcome::Attack(t),
                None => MoveOutcome::Step,
            }
        }),
        r.1 == (if is_player && !walkable {
            Some(Msg::PlayerFailMove)
        } else if is_player && walkable && enemy is None {
            Some(Msg::PlayerMove)
        } else {
            None::<Msg>
        }),
{
    if walkable {
        match enemy {
            Some(t) => (MoveOutcome::Attack(t), None),
            None => {
                let msg = if is_player { Some(Msg::PlayerMove) } else { None };
                (MoveOutcome::Step, msg)
            },
        }
    } else {
        let msg = if is_player { Some(Msg::PlayerFailMove) } else { None };
        (MoveOutcome::Blocked, msg)
    }
}

} // verus!
