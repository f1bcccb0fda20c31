//! Players and the discrete actions they report.
use vstd::prelude::*;

use crate::item::{Item, WeaponKind};
use crate::packet::PlayerPacket;

verus! {

/// A discrete event a player reports in a state update.
///
/// Floating-point quantities are carried as their IEEE-754 bit patterns.
#[derive(Clone, Copy, Debug, PartialEq, Eq)]
pub enum ActionType {
    /// A shot: the weapon, then four quantities (origin and direction) as `f32` bits.
    Shot((WeaponKind, u32, u32, u32, u32)),
    /// Picking up the item with this id.
    PickUp(u64),
}

/// Health of a player that has just appeared.
pub const FULL_HEALTH: u32 = 100;

/// A player; `x`, `y`, `vx` and `vy` are `f32` bit patterns.
#[derive(Debug)]
pub struct Player {
    pub health: u32,
    pub name: String,
    pub id: u64,
    pub x: u32,
    pub y: u32,
    pub vx: u32,
    pub vy: u32,
    pub dir: bool,
    pub message: String,
    pub current_item: usize,
    pub items: Vec<Item>,
    pub actions: Vec<ActionType>,
}

/// Whether `p` is a player that has just appeared: full health, at rest, holding nothing,
/// with no actions.
pub open spec fn is_fresh(p: Player) -> bool {
    &&& p.health == FULL_HEALTH
    &&& p.vx == 0
    &&& p.vy == 0
    &&& p.current_item == 0
    &&& p.items@.len() == 0
    &&& p.actions@.len() == 0
}

impl Player {
    /// A fresh player named `name` at (`x`, `y`), facing left, with id `id`.
    pub fn new(name: String, x: u32, y: u32, id: u64) -> (r: Player)
        ensures
            is_fresh(r),
            r.name == name,
            r.id == id,
            r.x == x,
            r.y == y,
            !r.dir,
            r.message@ == Seq::<char>::empty(),
    {
        Player {
            health: FULL_HEALTH,
            id,
            name,
            x,
            y,
            vx: 0,
            vy: 0,
            dir: false,
            message: String::new(),
            current_item: 0,
            items: Vec::new(),
            actions: Vec::new(),
        }
    }

    /// A fresh player standing where `packet` puts it, with its name, facing and chat text,
    /// and with id `id`.
    pub fn from_player_packet(packet: &PlayerPacket, id: u64) -> (r: Player)
        ensures
            is_fresh(r),
            r.name@ == packet.name@,
            r.id == id,
            r.x == packet.x,
            r.y == packet.y,
            r.dir == packet.dir,
            r.message@ == packet.message@,
    {
        Player {
            health: FULL_HEALTH,
            id,
            name: packet.name.clone(),
            x: packet.x,
            y: packet.y,
            vx: 0,
            vy: 0,
            dir: packet.dir,
            message: packet.message.clone(),
            current_item: 0,
            items: Vec::new(),
            actions: Vec::new(),
        }
    }
}

} // verus!
