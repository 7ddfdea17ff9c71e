//! Dice and the resolution of an attack.

use crate::rng::draw_die;
use rand::rngs::StdRng;
use vstd::prelude::*;

verus! {

/// `dices` six-sided dice, plus `bonus`.
#[derive(Clone, Copy, Debug)]
pub struct Dice {
    pub dices: u32,
    pub bonus: i32,
}

impl Dice {
    pub fn new(dices: u32, bonus: i32) -> (r: Dice)
        ensures
            r.dices == dices,
            r.bonus == bonus,
    {
        Dice { dices, bonus }
    }

    /// The lowest total of a roll.
    pub open spec fn min_roll(self) -> int {
        self.dices + self.bonus
    }

    /// The highest total of a roll.
    pub open spec fn max_roll(self) -> int {
        6 * self.dices + self.bonus
    }

    /// The total of the faces rolled, plus the bonus.
    pub fn total(&self, faces: &Vec<i32>) -> (r: i32)
        requires
            faces@.len() == self.dices,
            forall|i: int| 0 <= i < faces@.len() ==> 1 <= #[trigger] faces@[i] <= 6,
            6 * self.dices <= i32::MAX,
            i32::MIN <= self.min_roll(),
            self.max_roll() <= i32::MAX,
        ensures
            r == sum_faces(faces@) + self.bonus,
            self.min_roll() <= r <= self.max_roll(),
    {
        let mut sum: i32 = 0;
        let mut i: usize = 0;
        while i < faces.len()
            invariant
                i <= faces@.len(),
                faces@.len() == self.dices,
                forall|j: int| 0 <= j < faces@.len() ==> 1 <= #[trigger] faces@[j] <= 6,
                6 * self.dices <= i32::MAX,
                sum == sum_faces(faces@.take(i as int)),
                i <= sum <= 6 * i,
            decreases faces@.len() - i,
        {
            assert(faces@.take(i + 1).drop_last() =~= faces@.take(i as int));
            sum = sum + faces[i];
            i = i + 1;
        }
        assert(faces@.take(faces@.len() as int) =~= faces@);
        sum + self.bonus
    }

    /// Rolls the dice and adds the bonus: the total of `dices` faces, each
    /// between 1 and 6.
    pub fn roll(&self, rng: &mut StdRng) -> (r: i32)
        requires
            6 * self.dices <= i32::MAX,
            i32::MIN <= self.min_roll(),
            self.max_roll() <= i32::MAX,
        ensures
            self.min_roll() <= r <= self.max_roll(),
            exists|faces: Seq<i32>|
                faces.len() == self.dices && (forall|i: int| 0 <= i < faces.len() ==> 1 <= #[trigger] faces[i] <= 6)
                    && r == sum_faces(faces) + self.bonus,
    {
        let mut faces: Vec<i32> = Vec::new();
        let mut i: u32 = 0;
        while i < self.dices
            invariant
                i <= self.dices,
                faces@.len() == i,
                forall|j: int| 0 <= j < faces@.len() ==> 1 <= #[trigger] faces@[j] <= 6,
            decreases self.dices - i,
        {
            let face = draw_die(rng);
            faces.push(face);
            i = i + 1;
        }
        self.total(&faces)
    }
}

/// The sum of the faces rolled.
pub open spec fn sum_faces(faces: Seq<i32>) -> int
    decreases faces.len(),
{
    if faces.len() == 0 {
        0
    } else {
        sum_faces(faces.drop_last()) + faces.last()
    }
}

/// Dice to hit, to avoid being hit, and for damage.
#[derive(Clone, Copy, Debug)]
pub struct CombatStats {
    pub attack: Dice,
    pub defense: Dice,
    pub damage: Dice,
}

/// How an attack ended.
#[derive(Clone, Debug)]
pub enum CombatResult {
    AttackHit { hit_roll: i32, hit_require: i32, damage_roll: i32 },
    Defend { hit_roll: i32, hit_require: i32 },
}

/// The dice of `d` can be rolled without overflow.
pub open spec fn rollable(d: Dice) -> bool {
    6 * d.dices <= i32::MAX && i32::MIN <= d.min_roll() && d.max_roll() <= i32::MAX
}

/// The end of an attack, given its rolls: a hit, with `damage_roll`, when the
/// attack roll beats the defence roll; else a defence.
pub open spec fn attack_outcome(attack_roll: i32, defense_roll: i32, damage_roll: i32) -> CombatResult {
    if attack_roll > defense_roll {
        CombatResult::AttackHit { hit_roll: attack_roll, hit_require: defense_roll, damage_roll }
    } else {
        CombatResult::Defend { hit_roll: attack_roll, hit_require: defense_roll }
    }
}

/// The end of an attack, given the rolls made: the attack roll, the defence
/// roll and, when there is one, the damage roll.
pub fn resolve_attack(attack_roll: i32, defense_roll: i32, damage_roll: i32) -> (r: CombatResult)
    ensures
        r == attack_outcome(attack_roll, defense_roll, damage_roll),
{
    if attack_roll > defense_roll {
        CombatResult::AttackHit { hit_roll: attack_roll, hit_require: defense_roll, damage_roll }
    } else {
        CombatResult::Defend { hit_roll: attack_roll, hit_require: defense_roll }
    }
}

/// Rolls `attacker`'s attack against `defender`'s defence (a defence of 1 when
/// there is no defender) and, on a hit, the attacker's damage.
pub fn execute_attack(rng: &mut StdRng, attacker: &CombatStats, defender: Option<&CombatStats>) -> (r: CombatResult)
    requires
        rollable(attacker.attack),
        rollable(attacker.damage),
        defender matches Some(d) ==> rollable(d.defense),
    ensures
        match r {
            CombatResult::AttackHit { hit_roll, hit_require, damage_roll } => {
                &&& hit_roll > hit_require
                &&& attacker.attack.min_roll() <= hit_roll <= attacker.attack.max_roll()
                &&& attacker.damage.min_roll() <= damage_roll <= attacker.damage.max_roll()
                &&& match defender {
                    Some(d) => d.defense.min_roll() <= hit_require <= d.defense.max_roll(),
                    None => hit_require == 1,
                }
            },
            CombatResult::Defend { hit_roll, hit_require } => {
                &&& hit_roll <= hit_require
                &&& attacker.attack.min_roll() <= hit_roll <= attacker.attack.max_roll()
                &&& match defender {
                    Some(d) => d.defense.min_roll() <= hit_require <= d.defense.max_roll(),
                    None => hit_require == 1,
                }
            },
        },
{
    let attack_roll = attacker.attack.roll(rng);
    let defense_roll = match defender {
        Some(d) => d.defense.roll(rng),
        None => 1,
    };
    if attack_roll > defense_roll {
        let damage = attacker.damage.roll(rng);
        resolve_attack(attack_roll, defense_roll, damage)
    } else {
        resolve_attack(attack_roll, defense_roll, 0)
    }
}

} // verus!
