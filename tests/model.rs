use zone_relay::debugutils::should_log;
use zone_relay::identity::{build_identity, hex_lower};
use zone_relay::item::{AmmoType, ItemKind, Weapon, WeaponKind};
use zone_relay::map::{Tile, TileKind, WorldMap};
use zone_relay::packet::PlayerPacket;
use zone_relay::player::{ActionType, Player};

#[test]
fn new_map_is_blank_grid() {
    let m = WorldMap::new(2, 3);
    assert_eq!(m.tiles.len(), 2);
    assert!(m.tiles.iter().all(|row| row.len() == 3));
    assert_eq!(m.get_tile(2, 1), Some(&Tile { collision: false, kind: TileKind::Empty }));
    assert_eq!(m.get_tile(3, 0), None);
    assert_eq!(m.get_tile(0, 2), None);
    assert!(m.items.is_empty());
}

#[test]
fn empty_map_has_no_tiles() {
    let m = WorldMap::new(0, 5);
    assert!(m.tiles.is_empty());
    assert_eq!(m.get_tile(0, 0), None);
}

#[test]
fn ak47_item() {
    let it = Weapon::ak47(1.0f32.to_bits(), 2.0f32.to_bits(), false, 77);
    assert_eq!(it.id, 77);
    assert_eq!(f32::from_bits(it.x), 1.0);
    assert_eq!(it.texture.as_deref(), Some("res/weapon_ak47.png"));
    assert_eq!(it.texture_equipped.as_deref(), Some("res/weapon_ak47_picked.png"));
    match it.kind {
        ItemKind::Weapon(w) => {
            assert_eq!(w.weapon_kind, WeaponKind::Ak47);
            assert_eq!(w.damage, 13);
            assert_eq!(w.magazine, 30);
            assert_eq!(f32::from_bits(w.spread), 10.0);
            assert_eq!(f32::from_bits(w.firerate), 0.1);
            assert_eq!(f32::from_bits(w.last_shot_time), 0.0);
            assert_eq!(w.ammo_type, AmmoType::Medium);
            assert_eq!((f32::from_bits(w.shotoffset.0), f32::from_bits(w.shotoffset.1)), (20.0, 8.0));
        }
        _ => panic!("not a weapon"),
    }
}

#[test]
fn magnum_item() {
    let it = Weapon::magnum(0, 0, true, 1);
    assert!(it.picked);
    assert_eq!(it.texture.as_deref(), Some("res/weapon_magnum.png"));
    match it.kind {
        ItemKind::Weapon(w) => {
            assert_eq!(w.weapon_kind, WeaponKind::Magnum);
            assert_eq!(w.damage, 40);
            assert_eq!(w.magazine_size, 6);
            assert_eq!(w.reload_time, 4);
            assert_eq!(f32::from_bits(w.spread), 2.0);
        }
        _ => panic!("not a weapon"),
    }
}

#[test]
fn player_packet_round_trip_through_player() {
    let mut p = Player::new("q".to_string(), 3.0f32.to_bits(), 4.0f32.to_bits(), 9);
    assert_eq!(p.health, 100);
    p.message = "hi".to_string();
    p.actions.push(ActionType::PickUp(3));
    let pkt = PlayerPacket::from_player(&p);
    assert_eq!(pkt.name, "q");
    assert_eq!(pkt.id, 9);
    assert_eq!(pkt.actions, vec![ActionType::PickUp(3)]);
    let other = Player::from_player_packet(&pkt, 10);
    assert_eq!(other.id, 10);
    assert_eq!(other.name, "q");
    assert_eq!(other.message, "hi");
    assert_eq!(f32::from_bits(other.x), 3.0);
    assert!(other.actions.is_empty());
    assert_eq!(other.health, 100);
}

#[test]
fn hex_is_two_lower_digits_per_byte() {
    assert_eq!(hex_lower(&[0x00, 0x0f, 0xa5, 0xff]), "000fa5ff");
    assert_eq!(hex_lower(&[]), "");
}

#[test]
fn identity_is_sha256_hex() {
    assert_eq!(
        build_identity(b""),
        "e3b0c44298fc1c149afbf4c8996fb92427ae41e4649b934ca495991b7852b855"
    );
    assert_eq!(
        build_identity(b"abc"),
        "ba7816bf8f01cfea414140de5dae2223b00361a396177a9cb410ff61f20015ad"
    );
}

#[test]
fn log_every_n_frames() {
    assert!(should_log(3600, 3600));
    assert!(should_log(0, 10));
    assert!(!should_log(3601, 3600));
    assert!(should_log(-20, 10));
    assert!(!should_log(-21, 10));
    assert!(should_log(30, -10));
}
