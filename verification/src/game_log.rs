//! The messages the game reports to the player, and the log that holds them
//! until they are shown.

use crate::text::{int_digits, int_to_string};
use vstd::prelude::*;
use vstd::string::StringExecFns;

verus! {

broadcast use vstd::string::to_string_from_display_ensures_for_str;

/// Something that happened, worth telling the player.
#[derive(Clone, Debug)]
pub enum Msg {
    PlayerAttack { hit_roll: i32, hit_require: i32, damage: i32 },
    PlayerMissAttack { hit_roll: i32, hit_require: i32 },
    PlayerReceiveAttack { hit_roll: i32, hit_require: i32, damage: i32 },
    PlayerReceiveMissAttack { hit_roll: i32, hit_require: i32 },
    Died,
    ShipLand,
    ShipLaunch,
    PlayerMove,
    PlayerFailMove,
}

/// The text of a message. When the player is attacked, the two rolls are
/// written the other way round: the defender's roll first.
pub open spec fn msg_text(m: Msg) -> Seq<char> {
    match m {
        Msg::PlayerAttack { hit_roll, hit_require, damage } => "attack a mob, roll "@ + int_digits(
            hit_roll as int,
        ) + " from "@ + int_digits(hit_require as int) + ", cause damage of "@ + int_digits(
            damage as int,
        ),
        Msg::Died => "mob dies"@,
        Msg::ShipLand => "ship landed into planet"@,
        Msg::ShipLaunch => "ship launch into space"@,
        Msg::PlayerMove => "move"@,
        Msg::PlayerFailMove => "fail to move"@,
        Msg::PlayerReceiveAttack { hit_roll, hit_require, damage } => "hit, roll "@ + int_digits(
            hit_require as int,
        ) + " from "@ + int_digits(hit_roll as int) + ", cause damage of "@ + int_digits(
            damage as int,
        ),
        Msg::PlayerMissAttack { hit_roll, hit_require } => "miss, roll "@ + int_digits(
            hit_roll as int,
        ) + " from "@ + int_digits(hit_require as int),
        Msg::PlayerReceiveMissAttack { hit_roll, hit_require } => "defend, roll "@ + int_digits(
            hit_require as int,
        ) + " from "@ + int_digits(hit_roll as int),
    }
}

impl Msg {
    /// The message as the player reads it.
    pub fn to_string(&self) -> (r: String)
        ensures
            r@ == msg_text(*self),
    {
        match self {
            Msg::PlayerAttack { hit_roll, hit_require, damage } => {
                let mut s = String::from_str("attack a mob, roll ");
                s.append(int_to_string(*hit_roll).as_str());
                s.append(" from ");
                s.append(int_to_string(*hit_require).as_str());
                s.append(", cause damage of ");
                s.append(int_to_string(*damage).as_str());
                s
            },
            Msg::Died => String::from_str("mob dies"),
            Msg::ShipLand => String::from_str("ship landed into planet"),
            Msg::ShipLaunch => String::from_str("ship launch into space"),
            Msg::PlayerMove => String::from_str("move"),
            Msg::PlayerFailMove => String::from_str("fail to move"),
            Msg::PlayerReceiveAttack { hit_roll, hit_require, damage } => {
                let mut s = String::from_str("hit, roll ");
                s.append(int_to_string(*hit_require).as_str());
                s.append(" from ");
                s.append(int_to_string(*hit_roll).as_str());
                s.append(", cause damage of ");
                s.append(int_to_string(*damage).as_str());
                s
            },
            Msg::PlayerMissAttack { hit_roll, hit_require } => {
                let mut s = String::from_str("miss, roll ");
                s.append(int_to_string(*hit_roll).as_str());
                s.append(" from ");
                s.append(int_to_string(*hit_require).as_str());
                s
            },
            Msg::PlayerReceiveMissAttack { hit_roll, hit_require } => {
                let mut s = String::from_str("defend, roll ");
                s.append(int_to_string(*hit_require).as_str());
                s.append(" from ");
                s.append(int_to_string(*hit_roll).as_str());
                s
            },
        }
    }
}

/// The messages not yet shown, oldest first.
#[derive(Clone, Debug)]
pub struct GameLog {
    queue: Vec<Msg>,
}

impl View for GameLog {
    type V = Seq<Msg>;

    closed spec fn view(&self) -> Seq<Msg> {
        self.queue@
    }
}

impl Default for GameLog {
    fn default() -> (r: GameLog)
        ensures
            r@ == Seq::<Msg>::empty(),
    {
        GameLog { queue: Vec::new() }
    }
}

impl GameLog {
    /// The messages held, oldest first.
    pub fn list(&self) -> (r: &Vec<Msg>)
        ensures
            r@ == self@,
    {
        &self.queue
    }

    /// Adds a message after the others.
    pub fn push(&mut self, msg: Msg)
        ensures
            final(self)@ == old(self)@.push(msg),
    {
        self.queue.push(msg);
    }

    /// Hands out every message held, oldest first, and leaves the log empty.
    pub fn take(&mut self) -> (r: Vec<Msg>)
        ensures
            r@ == old(self)@,
            final(self)@ == Seq::<Msg>::empty(),
    {
        let mut taken: Vec<Msg> = Vec::new();
        std::mem::swap(&mut taken, &mut self.queue);
        taken
    }
}

} // verus!
