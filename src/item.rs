//! Items that lie on the map or are carried, and the weapons among them.
//!
//! Floating-point quantities are held as their IEEE-754 `f32` bit patterns.
use vstd::prelude::*;
use vstd::string::*;

verus! {

/// `10.0f32` as bits.
pub const F32_TEN: u32 = 0x4120_0000;

/// `2.0f32` as bits.
pub const F32_TWO: u32 = 0x4000_0000;

/// `0.1f32` as bits.
pub const F32_TENTH: u32 = 0x3dcc_cccd;

/// `20.0f32` as bits.
pub const F32_TWENTY: u32 = 0x41a0_0000;

/// `8.0f32` as bits.
pub const F32_EIGHT: u32 = 0x4100_0000;

/// The models of weapon.
#[derive(Clone, Copy, Debug, PartialEq, Eq, Structural)]
pub enum WeaponKind {
    Ak47,
    Magnum,
}

/// Calibres of ammunition.
#[derive(Clone, Copy, Debug, PartialEq, Eq, Structural)]
pub enum AmmoType {
    Small,
    Medium,
    Large,
}

/// A weapon's characteristics and state. `spread`, `firerate`, `last_shot_time` and
/// `shotoffset` are `f32` bit patterns.
#[derive(Clone, Copy, Debug, PartialEq, Eq)]
pub struct Weapon {
    pub weapon_kind: WeaponKind,
    pub damage: u32,
    pub bullets_per_shot: u32,
    pub magazine: u32,
    pub magazine_size: u32,
    pub reload_time: u32,
    pub spread: u32,
    pub is_auto: bool,
    pub firerate: u32,
    pub last_shot_time: u32,
    pub ammo_type: AmmoType,
    pub shotoffset: (u32, u32),
}

/// What an item is.
#[derive(Clone, Copy, Debug, PartialEq, Eq)]
pub enum ItemKind {
    Weapon(Weapon),
    Armor,
    Consumable,
}

/// An item; `x` and `y` are `f32` bit patterns.
#[derive(Clone, Debug, PartialEq)]
pub struct Item {
    pub id: u64,
    pub x: u32,
    pub y: u32,
    pub picked: bool,
    pub name: String,
    pub texture: Option<String>,
    pub texture_equipped: Option<String>,
    pub kind: ItemKind,
}

/// Whether `item` is a weapon item with the given textures and characteristics, at the
/// given place, with an empty name.
pub open spec fn is_weapon_item(
    item: Item,
    id: u64,
    px: u32,
    py: u32,
    picked: bool,
    texture: Seq<char>,
    texture_equipped: Seq<char>,
    w: Weapon,
) -> bool {
    &&& item.id == id
    &&& item.x == px
    &&& item.y == py
    &&& item.picked == picked
    &&& item.name@ == Seq::<char>::empty()
    &&& item.texture matches Some(t) && t@ == texture
    &&& item.texture_equipped matches Some(t) && t@ == texture_equipped
    &&& item.kind == ItemKind::Weapon(w)
}

impl Weapon {
    /// A fresh AK-47 item at (`px`, `py`) with item id `id`.
    pub fn ak47(px: u32, py: u32, ppicked: bool, id: u64) -> (r: Item)
        ensures
            is_weapon_item(
                r,
                id,
                px,
                py,
                ppicked,
                "res/weapon_ak47.png"@,
                "res/weapon_ak47_picked.png"@,
                Weapon {
                    weapon_kind: WeaponKind::Ak47,
                    damage: 13,
                    bullets_per_shot: 1,
                    magazine: 30,
                    magazine_size: 30,
                    reload_time: 2,
                    spread: F32_TEN,
                    is_auto: true,
                    firerate: F32_TENTH,
                    last_shot_time: 0,
                    ammo_type: AmmoType::Medium,
                    shotoffset: (F32_TWENTY, F32_EIGHT),
                },
            ),
    {
        Item {
            id,
            x: px,
            y: py,
            picked: ppicked,
            name: String::new(),
            texture: Some(String::from_str("res/weapon_ak47.png")),
            texture_equipped: Some(String::from_str("res/weapon_ak47_picked.png")),
            kind: ItemKind::Weapon(
                Weapon {
                    weapon_kind: WeaponKind::Ak47,
                    damage: 13,
                    bullets_per_shot: 1,
                    magazine: 30,
                    magazine_size: 30,
                    reload_time: 2,
                    spread: F32_TEN,
                    is_auto: true,
                    firerate: F32_TENTH,
                    last_shot_time: 0,
                    ammo_type: AmmoType::Medium,
                    shotoffset: (F32_TWENTY, F32_EIGHT),
                },
            ),
        }
    }

    /// A fresh Magnum item at (`px`, `py`) with item id `id`.
    pub fn magnum(px: u32, py: u32, ppicked: bool, id: u64) -> (r: Item)
        ensures
            is_weapon_item(
                r,
                id,
                px,
                py,
                ppicked,
                "res/weapon_magnum.png"@,
                "res/weapon_magnum_picked.png"@,
                Weapon {
                    weapon_kind: WeaponKind::Magnum,
                    damage: 40,
                    bullets_per_shot: 1,
                    magazine: 6,
                    magazine_size: 6,
                    reload_time: 4,
                    spread: F32_TWO,
                    is_auto: true,
                    firerate: F32_TENTH,
                    last_shot_time: 0,
                    ammo_type: AmmoType::Medium,
                    shotoffset: (F32_TWENTY, F32_EIGHT),
                },
            ),
    {
        Item {
            id,
            x: px,
            y: py,
            picked: ppicked,
            name: String::new(),
            texture: Some(String::from_str("res/weapon_magnum.png")),
            texture_equipped: Some(String::from_str("res/weapon_magnum_picked.png")),
            kind: ItemKind::Weapon(
                Weapon {
                    weapon_kind: WeaponKind::Magnum,
                    damage: 40,
                    bullets_per_shot: 1,
                    magazine: 6,
                    magazine_size: 6,
                    reload_time: 4,
                    spread: F32_TWO,
                    is_auto: true,
                    firerate: F32_TENTH,
                    last_shot_time: 0,
                    ammo_type: AmmoType::Medium,
                    shotoffset: (F32_TWENTY, F32_EIGHT),
                },
            ),
        }
    }
}

} // verus!
