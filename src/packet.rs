//! The state-update message and its binary encoding.
//!
//! Layout, all integers big-endian and fixed-width:
//! version byte, name (u32 byte length + UTF-8), id (u64), x and y (u32 `f32` bits),
//! chat text (u32 byte length + UTF-8, empty when there is none), facing (one byte, 0 or 1),
//! action count (u32), then each action: tag 0 = shot (weapon byte, four u32),
//! tag 1 = pick-up (u64 item id).
use vstd::prelude::*;
use vstd::utf8::*;

use crate::frame::{
    be32, be32_at, be64, be64_at, encode_frame, frame_of, lemma_be32_read, lemma_be32_split, lemma_be64_read,
    lemma_be64_split, put_bytes, put_u32, put_u64, read_u32, read_u64,
};
use crate::item::WeaponKind;
use crate::map::WorldMap;
use crate::player::{ActionType, Player};

verus! {

/// Version of the encoding, carried in the first byte of every message.
pub const PROTOCOL_VERSION: u8 = 1;

/// Tag byte of a shot action.
pub const TAG_SHOT: u8 = 0;

/// Tag byte of a pick-up action.
pub const TAG_PICK_UP: u8 = 1;

/// Why a payload is not the encoding of a message.
#[derive(Clone, Copy, Debug, PartialEq, Eq, Structural)]
pub enum DecodeError {
    /// The payload ends inside a field.
    Truncated,
    /// The first byte is not this encoding's version.
    UnknownVersion,
    /// A boolean byte is neither 0 nor 1.
    BadFlag,
    /// An action or weapon tag is unknown.
    UnknownTag,
    /// A text field is not well-formed UTF-8.
    BadText,
    /// Bytes remain after the last action.
    TrailingBytes,
}

/// A payload that could not be decoded: the reason, and the raw bytes for diagnosis.
#[derive(Clone, Debug)]
pub struct ProtocolError {
    pub reason: DecodeError,
    pub raw: Vec<u8>,
}

/// The world snapshot handed to each client as it connects.
#[derive(Clone, Debug)]
pub struct MapPacket {
    pub data: WorldMap,
}

/// One client's state update. Positions are carried as `f32` bit patterns; an empty
/// `message` means that no chat text is attached.
#[derive(Clone, Debug)]
pub struct PlayerPacket {
    pub name: String,
    pub id: u64,
    pub x: u32,
    pub y: u32,
    pub message: String,
    pub dir: bool,
    pub actions: Vec<ActionType>,
}

/// The content of a `PlayerPacket`.
pub struct PacketView {
    pub name: Seq<char>,
    pub id: u64,
    pub x: u32,
    pub y: u32,
    pub message: Seq<char>,
    pub dir: bool,
    pub actions: Seq<ActionType>,
}

impl View for PlayerPacket {
    type V = PacketView;

    open spec fn view(&self) -> PacketView {
        PacketView {
            name: self.name@,
            id: self.id,
            x: self.x,
            y: self.y,
            message: self.message@,
            dir: self.dir,
            actions: self.actions@,
        }
    }
}

impl PacketView {
    /// Every length field holds its length, and the whole encoding fits in one frame.
    pub open spec fn fits(self) -> bool {
        &&& encode_utf8(self.name).len() <= u32::MAX
        &&& encode_utf8(self.message).len() <= u32::MAX
        &&& self.actions.len() <= u32::MAX
        &&& packet_bytes(self).len() <= u32::MAX
    }
}

// ---- the encoding ----

pub open spec fn weapon_byte(k: WeaponKind) -> u8 {
    match k {
        WeaponKind::Ak47 => 0,
        WeaponKind::Magnum => 1,
    }
}

pub open spec fn flag_byte(b: bool) -> u8 {
    if b {
        1
    } else {
        0
    }
}

/// A text field: its UTF-8 byte length, then the bytes.
pub open spec fn text_bytes(s: Seq<char>) -> Seq<u8> {
    be32(encode_utf8(s).len() as u32) + encode_utf8(s)
}

pub open spec fn action_bytes(a: ActionType) -> Seq<u8> {
    match a {
        ActionType::Shot((k, p, q, r, s)) => seq![TAG_SHOT, weapon_byte(k)] + (be32(p) + (be32(q)
            + (be32(r) + be32(s)))),
        ActionType::PickUp(id) => seq![TAG_PICK_UP] + be64(id),
    }
}

/// The actions, one after another.
pub open spec fn actions_bytes(s: Seq<ActionType>) -> Seq<u8>
    decreases s.len(),
{
    if s.len() == 0 {
        seq![]
    } else {
        actions_bytes(s.drop_last()) + action_bytes(s.last())
    }
}

/// Chat text, facing, and the counted list of actions.
pub open spec fn tail_bytes(v: PacketView) -> Seq<u8> {
    text_bytes(v.message) + (seq![flag_byte(v.dir)] + (be32(v.actions.len() as u32) + actions_bytes(
        v.actions,
    )))
}

/// Id and position.
pub open spec fn position_bytes(v: PacketView) -> Seq<u8> {
    be64(v.id) + (be32(v.x) + be32(v.y))
}

/// The encoding of a message.
pub open spec fn packet_bytes(v: PacketView) -> Seq<u8> {
    seq![PROTOCOL_VERSION] + (text_bytes(v.name) + (position_bytes(v) + tail_bytes(v)))
}

// ---- reading it back ----

/// What is left of `b` from position `p` on.
pub open spec fn tail(b: Seq<u8>, p: int) -> Seq<u8> {
    b.subrange(p, b.len() as int)
}

pub open spec fn take_u32(b: Seq<u8>) -> Result<(u32, Seq<u8>), DecodeError> {
    if b.len() < 4 {
        Err(DecodeError::Truncated)
    } else {
        Ok((be32_at(b), tail(b, 4)))
    }
}

pub open spec fn take_u64(b: Seq<u8>) -> Result<(u64, Seq<u8>), DecodeError> {
    if b.len() < 8 {
        Err(DecodeError::Truncated)
    } else {
        Ok((be64_at(b), tail(b, 8)))
    }
}

pub open spec fn take_flag(b: Seq<u8>) -> Result<(bool, Seq<u8>), DecodeError> {
    if b.len() < 1 {
        Err(DecodeError::Truncated)
    } else if b[0] == 0 {
        Ok((false, tail(b, 1)))
    } else if b[0] == 1 {
        Ok((true, tail(b, 1)))
    } else {
        Err(DecodeError::BadFlag)
    }
}

#[verifier::opaque]
pub open spec fn take_text(b: Seq<u8>) -> Result<(Seq<char>, Seq<u8>), DecodeError> {
    if b.len() < 4 {
        Err(DecodeError::Truncated)
    } else {
        let n = be32_at(b) as int;
        if b.len() - 4 < n {
            Err(DecodeError::Truncated)
        } else if !valid_utf8(b.subrange(4, 4 + n)) {
            Err(DecodeError::BadText)
        } else {
            Ok((decode_utf8(b.subrange(4, 4 + n)), tail(b, 4 + n)))
        }
    }
}

/// Four `u32` of a shot.
pub open spec fn take_quad(b: Seq<u8>) -> Result<((u32, u32, u32, u32), Seq<u8>), DecodeError> {
    if b.len() < 16 {
        Err(DecodeError::Truncated)
    } else {
        Ok(((be32_at(b), be32_at(tail(b, 4)), be32_at(tail(b, 8)), be32_at(tail(b, 12))), tail(b, 16)))
    }
}

pub open spec fn take_action(b: Seq<u8>) -> Result<(ActionType, Seq<u8>), DecodeError> {
    if b.len() < 1 {
        Err(DecodeError::Truncated)
    } else if b[0] == TAG_PICK_UP {
        match take_u64(tail(b, 1)) {
            Err(e) => Err(e),
            Ok((id, r)) => Ok((ActionType::PickUp(id), r)),
        }
    } else if b[0] != TAG_SHOT {
        Err(DecodeError::UnknownTag)
    } else if b.len() < 2 {
        Err(DecodeError::Truncated)
    } else if b[1] > 1 {
        Err(DecodeError::UnknownTag)
    } else {
        let k = if b[1] == 0 {
            WeaponKind::Ak47
        } else {
            WeaponKind::Magnum
        };
        match take_quad(tail(b, 2)) {
            Err(e) => Err(e),
            Ok(((p, q, r, s), rest)) => Ok((ActionType::Shot((k, p, q, r, s)), rest)),
        }
    }
}

/// The first `count` actions of `b`.
pub open spec fn take_actions(b: Seq<u8>, count: nat) -> Result<(Seq<ActionType>, Seq<u8>), DecodeError>
    decreases count,
{
    if count == 0 {
        Ok((seq![], b))
    } else {
        match take_actions(b, (count - 1) as nat) {
            Err(e) => Err(e),
            Ok((acts, r)) => match take_action(r) {
                Err(e) => Err(e),
                Ok((a, r2)) => Ok((acts.push(a), r2)),
            },
        }
    }
}

/// Version and name.
pub open spec fn take_head(b: Seq<u8>) -> Result<(Seq<char>, Seq<u8>), DecodeError> {
    if b.len() < 1 {
        Err(DecodeError::Truncated)
    } else if b[0] != PROTOCOL_VERSION {
        Err(DecodeError::UnknownVersion)
    } else {
        take_text(tail(b, 1))
    }
}

/// Id and position.
#[verifier::opaque]
pub open spec fn take_position(b: Seq<u8>) -> Result<((u64, u32, u32), Seq<u8>), DecodeError> {
    if b.len() < 16 {
        Err(DecodeError::Truncated)
    } else {
        Ok(((be64_at(b), be32_at(tail(b, 8)), be32_at(tail(b, 12))), tail(b, 16)))
    }
}

/// Facing, the counted actions, and nothing after them.
#[verifier::opaque]
pub open spec fn take_rest(b: Seq<u8>) -> Result<(bool, Seq<ActionType>), DecodeError> {
    match take_flag(b) {
        Err(e) => Err(e),
        Ok((dir, r)) => match take_u32(r) {
            Err(e) => Err(e),
            Ok((n, r2)) => match take_actions(r2, n as nat) {
                Err(e) => Err(e),
                Ok((acts, r3)) => if r3.len() == 0 {
                    Ok((dir, acts))
                } else {
                    Err(DecodeError::TrailingBytes)
                },
            },
        },
    }
}

/// The message that `b` encodes, or why it encodes none.
pub open spec fn parse_packet(b: Seq<u8>) -> Result<PacketView, DecodeError> {
    match take_head(b) {
        Err(e) => Err(e),
        Ok((name, r1)) => match take_position(r1) {
            Err(e) => Err(e),
            Ok(((id, x, y), r2)) => match take_text(r2) {
                Err(e) => Err(e),
                Ok((message, r3)) => match take_rest(r3) {
                    Err(e) => Err(e),
                    Ok((dir, actions)) => Ok(PacketView { name, id, x, y, message, dir, actions }),
                },
            },
        },
    }
}

// ---- encoding, then reading back ----

proof fn lemma_take_u32(v: u32, rest: Seq<u8>)
    ensures
        take_u32(be32(v) + rest) == Ok::<(u32, Seq<u8>), DecodeError>((v, rest)),
{
    lemma_be32_read(v, rest);
}

proof fn lemma_take_u64(v: u64, rest: Seq<u8>)
    ensures
        take_u64(be64(v) + rest) == Ok::<(u64, Seq<u8>), DecodeError>((v, rest)),
{
    lemma_be64_read(v, rest);
}

proof fn lemma_take_text(s: Seq<char>, rest: Seq<u8>)
    requires
        encode_utf8(s).len() <= u32::MAX,
    ensures
        take_text(text_bytes(s) + rest) == Ok::<(Seq<char>, Seq<u8>), DecodeError>((s, rest)),
{
    reveal(take_text);
    let e = encode_utf8(s);
    let n = e.len() as u32;
    let b = text_bytes(s) + rest;
    assert(b =~= be32(n) + (e + rest));
    lemma_be32_read(n, e + rest);
    assert(b.subrange(4, 4 + n as int) =~= e);
    encode_utf8_valid_utf8(s);
    encode_utf8_decode_utf8(s);
    assert(tail(b, 4 + n as int) =~= rest);
}

proof fn lemma_take_quad(p: u32, q: u32, r: u32, s: u32, rest: Seq<u8>)
    ensures
        take_quad(be32(p) + (be32(q) + (be32(r) + (be32(s) + rest)))) == Ok::<
            ((u32, u32, u32, u32), Seq<u8>),
            DecodeError,
        >(((p, q, r, s), rest)),
{
    let b = be32(p) + (be32(q) + (be32(r) + (be32(s) + rest)));
    lemma_be32_read(p, be32(q) + (be32(r) + (be32(s) + rest)));
    lemma_be32_read(q, be32(r) + (be32(s) + rest));
    lemma_be32_read(r, be32(s) + rest);
    lemma_be32_read(s, rest);
    assert(tail(b, 4) =~= be32(q) + (be32(r) + (be32(s) + rest)));
    assert(tail(b, 8) =~= be32(r) + (be32(s) + rest));
    assert(tail(b, 12) =~= be32(s) + rest);
    assert(tail(b, 16) =~= rest);
}

proof fn lemma_take_action(a: ActionType, rest: Seq<u8>)
    ensures
        take_action(action_bytes(a) + rest) == Ok::<(ActionType, Seq<u8>), DecodeError>((a, rest)),
{
    let b = action_bytes(a) + rest;
    match a {
        ActionType::PickUp(id) => {
            assert(tail(b, 1) =~= be64(id) + rest);
            lemma_take_u64(id, rest);
        },
        ActionType::Shot((k, p, q, r, s)) => {
            assert(tail(b, 2) =~= be32(p) + (be32(q) + (be32(r) + (be32(s) + rest))));
            lemma_take_quad(p, q, r, s, rest);
        },
    }
}

proof fn lemma_take_actions(s: Seq<ActionType>, rest: Seq<u8>)
    ensures
        take_actions(actions_bytes(s) + rest, s.len()) == Ok::<(Seq<ActionType>, Seq<u8>), DecodeError>(
            (s, rest),
        ),
    decreases s.len(),
{
    if s.len() == 0 {
        assert(actions_bytes(s) + rest =~= rest);
        assert(s =~= seq![]);
    } else {
        let init = s.drop_last();
        let a = s.last();
        assert(actions_bytes(s) + rest =~= actions_bytes(init) + (action_bytes(a) + rest));
        lemma_take_actions(init, action_bytes(a) + rest);
        lemma_take_action(a, rest);
        assert(init.push(a) =~= s);
    }
}

/// Decoding the encoding of a message that fits in a frame gives that message back.
pub proof fn lemma_decode_encode(v: PacketView)
    requires
        v.fits(),
    ensures
        parse_packet(packet_bytes(v)) == Ok::<PacketView, DecodeError>(v),
{
    reveal(take_position);
    reveal(take_rest);
    let b = packet_bytes(v);
    let tb = tail_bytes(v);
    let pb = position_bytes(v);
    assert(tail(b, 1) =~= text_bytes(v.name) + (pb + tb));
    lemma_take_text(v.name, pb + tb);
    let b2 = pb + tb;
    assert(b2 =~= be64(v.id) + (be32(v.x) + (be32(v.y) + tb)));
    lemma_be64_read(v.id, be32(v.x) + (be32(v.y) + tb));
    lemma_be32_read(v.x, be32(v.y) + tb);
    lemma_be32_read(v.y, tb);
    assert(tail(b2, 8) =~= be32(v.x) + (be32(v.y) + tb));
    assert(tail(b2, 12) =~= be32(v.y) + tb);
    assert(tail(b2, 16) =~= tb);
    let r3 = seq![flag_byte(v.dir)] + (be32(v.actions.len() as u32) + actions_bytes(v.actions));
    lemma_take_text(v.message, r3);
    assert(tail(r3, 1) =~= be32(v.actions.len() as u32) + actions_bytes(v.actions));
    lemma_take_u32(v.actions.len() as u32, actions_bytes(v.actions));
    assert(actions_bytes(v.actions) + Seq::<u8>::empty() =~= actions_bytes(v.actions));
    lemma_take_actions(v.actions, Seq::<u8>::empty());
}

// ---- reading, then encoding again ----

proof fn lemma_u32_taken(b: Seq<u8>)
    requires
        take_u32(b) is Ok,
    ensures
        b == be32(take_u32(b)->Ok_0.0) + take_u32(b)->Ok_0.1,
{
    lemma_be32_split(b);
}

proof fn lemma_text_taken(b: Seq<u8>)
    requires
        take_text(b) is Ok,
    ensures
        b == text_bytes(take_text(b)->Ok_0.0) + take_text(b)->Ok_0.1,
{
    reveal(take_text);
    let n = be32_at(b) as int;
    let raw = b.subrange(4, 4 + n);
    let s = decode_utf8(raw);
    decode_utf8_encode_utf8(raw);
    assert(encode_utf8(s).len() as u32 == be32_at(b));
    lemma_be32_split(b);
    assert(b =~= text_bytes(s) + tail(b, 4 + n));
}

proof fn lemma_action_taken(b: Seq<u8>)
    requires
        take_action(b) is Ok,
    ensures
        b == action_bytes(take_action(b)->Ok_0.0) + take_action(b)->Ok_0.1,
{
    let (a, rest) = take_action(b)->Ok_0;
    if b[0] == TAG_PICK_UP {
        lemma_be64_split(tail(b, 1));
        assert(b =~= action_bytes(a) + rest);
    } else {
        let x = tail(b, 2);
        lemma_be32_split(x);
        lemma_be32_split(tail(x, 4));
        lemma_be32_split(tail(x, 8));
        lemma_be32_split(tail(x, 12));
        assert(tail(tail(x, 4), 4) =~= tail(x, 8));
        assert(tail(tail(x, 8), 4) =~= tail(x, 12));
        assert(tail(tail(x, 12), 4) =~= tail(x, 16));
        assert(tail(x, 4) =~= be32(be32_at(tail(x, 4))) + (be32(be32_at(tail(x, 8))) + (be32(
            be32_at(tail(x, 12)),
        ) + tail(x, 16))));
        assert(b =~= action_bytes(a) + rest);
    }
}

proof fn lemma_actions_taken(b: Seq<u8>, count: nat)
    requires
        take_actions(b, count) is Ok,
    ensures
        take_actions(b, count)->Ok_0.0.len() == count,
        b == actions_bytes(take_actions(b, count)->Ok_0.0) + take_actions(b, count)->Ok_0.1,
    decreases count,
{
    if count == 0 {
        assert(b =~= actions_bytes(seq![]) + b);
    } else {
        let (acts, r) = take_actions(b, (count - 1) as nat)->Ok_0;
        lemma_actions_taken(b, (count - 1) as nat);
        lemma_action_taken(r);
        let (a, r2) = take_action(r)->Ok_0;
        let all = acts.push(a);
        assert(all.drop_last() =~= acts);
        assert(b =~= actions_bytes(all) + r2);
    }
}

proof fn lemma_position_taken(b: Seq<u8>)
    requires
        take_position(b) is Ok,
    ensures
        ({
            let ((id, x, y), r) = take_position(b)->Ok_0;
            b == be64(id) + (be32(x) + be32(y)) + r
        }),
{
    reveal(take_position);
    lemma_be64_split(b);
    lemma_be32_split(tail(b, 8));
    lemma_be32_split(tail(b, 12));
    assert(tail(tail(b, 8), 4) =~= tail(b, 12));
    assert(tail(tail(b, 12), 4) =~= tail(b, 16));
    let ((id, x, y), r) = take_position(b)->Ok_0;
    assert(b =~= be64(id) + (be32(x) + be32(y)) + r);
}

proof fn lemma_rest_taken(b: Seq<u8>)
    requires
        take_rest(b) is Ok,
    ensures
        ({
            let (dir, acts) = take_rest(b)->Ok_0;
            b == seq![flag_byte(dir)] + (be32(acts.len() as u32) + actions_bytes(acts))
        }),
{
    reveal(take_rest);
    let r4 = tail(b, 1);
    lemma_u32_taken(r4);
    let r5 = tail(r4, 4);
    let n = be32_at(r4);
    lemma_actions_taken(r5, n as nat);
    let (acts, r6) = take_actions(r5, n as nat)->Ok_0;
    assert(r6 =~= Seq::<u8>::empty());
    assert(acts.len() as u32 == n);
    let (dir, acts2) = take_rest(b)->Ok_0;
    assert(b =~= seq![flag_byte(dir)] + (be32(acts.len() as u32) + actions_bytes(acts)));
}

/// A payload that decodes is exactly the encoding of the message it decodes to.
pub proof fn lemma_encode_decode(b: Seq<u8>)
    requires
        parse_packet(b) is Ok,
    ensures
        packet_bytes(parse_packet(b)->Ok_0) == b,
{
    let v = parse_packet(b)->Ok_0;
    let (name, r1) = take_text(tail(b, 1))->Ok_0;
    let ((id, x, y), r2) = take_position(r1)->Ok_0;
    let (message, r3) = take_text(r2)->Ok_0;
    let (dir, actions) = take_rest(r3)->Ok_0;
    assert(v == PacketView { name, id, x, y, message, dir, actions });
    lemma_text_taken(tail(b, 1));
    lemma_position_taken(r1);
    lemma_text_taken(r2);
    lemma_rest_taken(r3);
    assert(r3 == seq![flag_byte(dir)] + (be32(actions.len() as u32) + actions_bytes(actions)));
    assert(r2 == tail_bytes(v));
    assert(r1 == position_bytes(v) + tail_bytes(v));
    assert(tail(b, 1) == text_bytes(name) + (position_bytes(v) + tail_bytes(v)));
    assert(b =~= seq![PROTOCOL_VERSION] + tail(b, 1));
}

// ---- executable encoding ----

/// Relies on `String::from_utf8`: it accepts exactly the well-formed UTF-8 byte sequences,
/// and the string it returns is made of those bytes.
#[verifier::external_body]
fn string_from_utf8(bytes: Vec<u8>) -> (r: Option<String>)
    ensures
        r is Some <==> valid_utf8(bytes@),
        r matches Some(s) ==> encode_utf8(s@) == bytes@,
{
    String::from_utf8(bytes).ok()
}

proof fn lemma_tail_tail(b: Seq<u8>, p: int, q: int)
    requires
        0 <= p,
        0 <= q,
        p + q <= b.len(),
    ensures
        tail(tail(b, p), q) == tail(b, p + q),
{
    assert(tail(tail(b, p), q) =~= tail(b, p + q));
}

fn put_text(out: &mut Vec<u8>, s: &String)
    requires
        encode_utf8(s@).len() <= u32::MAX,
    ensures
        final(out)@ == old(out)@ + text_bytes(s@),
{
    let bytes = s.as_str().as_bytes();
    put_u32(out, bytes.len() as u32);
    put_bytes(out, bytes);
    assert(final(out)@ =~= old(out)@ + text_bytes(s@));
}

fn put_action(out: &mut Vec<u8>, a: &ActionType)
    ensures
        final(out)@ == old(out)@ + action_bytes(*a),
{
    match a {
        ActionType::Shot((k, p, q, r, s)) => {
            out.push(TAG_SHOT);
            out.push(
                match k {
                    WeaponKind::Ak47 => 0u8,
                    WeaponKind::Magnum => 1u8,
                },
            );
            put_u32(out, *p);
            put_u32(out, *q);
            put_u32(out, *r);
            put_u32(out, *s);
        },
        ActionType::PickUp(id) => {
            out.push(TAG_PICK_UP);
            put_u64(out, *id);
        },
    }
    assert(final(out)@ =~= old(out)@ + action_bytes(*a));
}

fn put_actions(out: &mut Vec<u8>, actions: &Vec<ActionType>)
    ensures
        final(out)@ == old(out)@ + actions_bytes(actions@),
{
    let ghost start = out@;
    let mut i: usize = 0;
    assert(start + actions_bytes(actions@.subrange(0, 0)) =~= start);
    while i < actions.len()
        invariant
            0 <= i <= actions@.len(),
            out@ == start + actions_bytes(actions@.subrange(0, i as int)),
        decreases actions@.len() - i,
    {
        put_action(out, &actions[i]);
        proof {
            let s = actions@.subrange(0, i + 1);
            assert(s.drop_last() =~= actions@.subrange(0, i as int));
            assert(out@ =~= start + actions_bytes(s));
        }
        i = i + 1;
    }
    assert(actions@.subrange(0, i as int) =~= actions@);
}

// ---- executable decoding ----

fn read_text(b: &[u8], pos: usize) -> (r: Result<(String, usize), DecodeError>)
    requires
        pos <= b@.len(),
    ensures
        match r {
            Ok((s, p)) => pos <= p <= b@.len() && take_text(tail(b@, pos as int)) == Ok::<
                (Seq<char>, Seq<u8>),
                DecodeError,
            >((s@, tail(b@, p as int))),
            Err(e) => take_text(tail(b@, pos as int)) == Err::<(Seq<char>, Seq<u8>), DecodeError>(e),
        },
{
    reveal(take_text);
    let ghost t = tail(b@, pos as int);
    if b.len() - pos < 4 {
        return Err(DecodeError::Truncated);
    }
    let n = read_u32(b, pos);
    if b.len() - pos - 4 < n as usize {
        return Err(DecodeError::Truncated);
    }
    let start = pos + 4;
    let end = start + n as usize;
    let raw = vstd::slice::slice_to_vec(vstd::slice::slice_subrange(b, start, end));
    assert(raw@ =~= t.subrange(4, 4 + n as int));
    match string_from_utf8(raw) {
        Some(s) => {
            proof {
                encode_utf8_decode_utf8(s@);
                assert(tail(t, 4 + n as int) =~= tail(b@, end as int));
            }
            Ok((s, end))
        },
        None => Err(DecodeError::BadText),
    }
}

fn read_action(b: &[u8], pos: usize) -> (r: Result<(ActionType, usize), DecodeError>)
    requires
        pos <= b@.len(),
    ensures
        match r {
            Ok((a, p)) => pos <= p <= b@.len() && take_action(tail(b@, pos as int)) == Ok::<
                (ActionType, Seq<u8>),
                DecodeError,
            >((a, tail(b@, p as int))),
            Err(e) => take_action(tail(b@, pos as int)) == Err::<(ActionType, Seq<u8>), DecodeError>(e),
        },
{
    let len = b.len();
    if len - pos < 1 {
        return Err(DecodeError::Truncated);
    }
    let tag = b[pos];
    if tag == TAG_PICK_UP {
        proof {
            lemma_tail_tail(b@, pos as int, 1);
        }
        if len - pos - 1 < 8 {
            return Err(DecodeError::Truncated);
        }
        let id = read_u64(b, pos + 1);
        proof {
            lemma_tail_tail(b@, pos + 1, 8);
        }
        return Ok((ActionType::PickUp(id), pos + 9));
    }
    if tag != TAG_SHOT {
        return Err(DecodeError::UnknownTag);
    }
    if len - pos < 2 {
        return Err(DecodeError::Truncated);
    }
    let kb = b[pos + 1];
    if kb > 1 {
        return Err(DecodeError::UnknownTag);
    }
    let k = if kb == 0 {
        WeaponKind::Ak47
    } else {
        WeaponKind::Magnum
    };
    proof {
        lemma_tail_tail(b@, pos as int, 2);
    }
    if len - pos - 2 < 16 {
        return Err(DecodeError::Truncated);
    }
    let p = read_u32(b, pos + 2);
    let q = read_u32(b, pos + 6);
    let r = read_u32(b, pos + 10);
    let s = read_u32(b, pos + 14);
    proof {
        lemma_tail_tail(b@, pos + 2, 4);
        lemma_tail_tail(b@, pos + 2, 8);
        lemma_tail_tail(b@, pos + 2, 12);
        lemma_tail_tail(b@, pos + 2, 16);
    }
    Ok((ActionType::Shot((k, p, q, r, s)), pos + 18))
}

proof fn lemma_actions_fail(b: Seq<u8>, k: nat, m: nat)
    requires
        take_actions(b, k) is Err,
        k <= m,
    ensures
        take_actions(b, m) == take_actions(b, k),
    decreases m - k,
{
    if k < m {
        lemma_actions_fail(b, k, (m - 1) as nat);
    }
}

fn read_actions(b: &[u8], pos: usize, count: u32) -> (r: Result<(Vec<ActionType>, usize), DecodeError>)
    requires
        pos <= b@.len(),
    ensures
        match r {
            Ok((acts, p)) => pos <= p <= b@.len() && take_actions(tail(b@, pos as int), count as nat)
                == Ok::<(Seq<ActionType>, Seq<u8>), DecodeError>((acts@, tail(b@, p as int))),
            Err(e) => take_actions(tail(b@, pos as int), count as nat) == Err::<
                (Seq<ActionType>, Seq<u8>),
                DecodeError,
            >(e),
        },
{
    let ghost t = tail(b@, pos as int);
    let mut acts: Vec<ActionType> = Vec::new();
    let mut p = pos;
    let mut i: u32 = 0;
    while i < count
        invariant
            t == tail(b@, pos as int),
            pos <= p <= b@.len(),
            i <= count,
            take_actions(t, i as nat) == Ok::<(Seq<ActionType>, Seq<u8>), DecodeError>(
                (acts@, tail(b@, p as int)),
            ),
        decreases count - i,
    {
        match read_action(b, p) {
            Ok((a, p2)) => {
                acts.push(a);
                p = p2;
                i = i + 1;
            },
            Err(e) => {
                proof {
                    assert(take_actions(t, (i + 1) as nat) == Err::<(Seq<ActionType>, Seq<u8>), DecodeError>(
                        e,
                    ));
                    lemma_actions_fail(t, (i + 1) as nat, count as nat);
                }
                return Err(e);
            },
        }
    }
    Ok((acts, p))
}

fn read_head(b: &[u8]) -> (r: Result<(String, usize), DecodeError>)
    ensures
        match r {
            Ok((s, p)) => p <= b@.len() && take_head(b@) == Ok::<(Seq<char>, Seq<u8>), DecodeError>(
                (s@, tail(b@, p as int)),
            ),
            Err(e) => take_head(b@) == Err::<(Seq<char>, Seq<u8>), DecodeError>(e),
        },
{
    if b.len() < 1 {
        return Err(DecodeError::Truncated);
    }
    if b[0] != PROTOCOL_VERSION {
        return Err(DecodeError::UnknownVersion);
    }
    read_text(b, 1)
}

fn read_position(b: &[u8], pos: usize) -> (r: Result<((u64, u32, u32), usize), DecodeError>)
    requires
        pos <= b@.len(),
    ensures
        match r {
            Ok((v, p)) => pos <= p <= b@.len() && take_position(tail(b@, pos as int)) == Ok::<
                ((u64, u32, u32), Seq<u8>),
                DecodeError,
            >((v, tail(b@, p as int))),
            Err(e) => take_position(tail(b@, pos as int)) == Err::<((u64, u32, u32), Seq<u8>), DecodeError>(
                e,
            ),
        },
{
    reveal(take_position);
    if b.len() - pos < 16 {
        return Err(DecodeError::Truncated);
    }
    let id = read_u64(b, pos);
    let x = read_u32(b, pos + 8);
    let y = read_u32(b, pos + 12);
    proof {
        lemma_tail_tail(b@, pos as int, 8);
        lemma_tail_tail(b@, pos as int, 12);
        lemma_tail_tail(b@, pos as int, 16);
    }
    Ok(((id, x, y), pos + 16))
}

fn read_rest(b: &[u8], pos: usize) -> (r: Result<(bool, Vec<ActionType>), DecodeError>)
    requires
        pos <= b@.len(),
    ensures
        match r {
            Ok((dir, acts)) => take_rest(tail(b@, pos as int)) == Ok::<(bool, Seq<ActionType>), DecodeError>(
                (dir, acts@),
            ),
            Err(e) => take_rest(tail(b@, pos as int)) == Err::<(bool, Seq<ActionType>), DecodeError>(e),
        },
{
    reveal(take_rest);
    let len = b.len();
    if len - pos < 1 {
        return Err(DecodeError::Truncated);
    }
    let fb = b[pos];
    if fb > 1 {
        return Err(DecodeError::BadFlag);
    }
    let dir = fb == 1;
    proof {
        lemma_tail_tail(b@, pos as int, 1);
    }
    if len - pos - 1 < 4 {
        return Err(DecodeError::Truncated);
    }
    let n = read_u32(b, pos + 1);
    proof {
        lemma_tail_tail(b@, pos + 1, 4);
    }
    match read_actions(b, pos + 5, n) {
        Err(e) => Err(e),
        Ok((acts, p)) => {
            if p == len {
                Ok((dir, acts))
            } else {
                Err(DecodeError::TrailingBytes)
            }
        },
    }
}

/// The frame that carries `packet` on a stream.
pub fn frame_packet(packet: &PlayerPacket) -> (r: Vec<u8>)
    requires
        packet@.fits(),
    ensures
        r@ == frame_of(packet_bytes(packet@)),
{
    let payload = packet.encode();
    encode_frame(payload.as_slice())
}

impl PlayerPacket {
    /// The state update that reports `player`.
    pub fn from_player(player: &Player) -> (r: PlayerPacket)
        ensures
            r@ == (PacketView {
                name: player.name@,
                id: player.id,
                x: player.x,
                y: player.y,
                message: player.message@,
                dir: player.dir,
                actions: player.actions@,
            }),
    {
        let mut actions: Vec<ActionType> = Vec::new();
        let mut i: usize = 0;
        while i < player.actions.len()
            invariant
                0 <= i <= player.actions@.len(),
                actions@ == player.actions@.subrange(0, i as int),
            decreases player.actions@.len() - i,
        {
            actions.push(player.actions[i]);
            i = i + 1;
            assert(actions@ =~= player.actions@.subrange(0, i as int));
        }
        assert(actions@ =~= player.actions@);
        PlayerPacket {
            name: player.name.clone(),
            id: player.id,
            x: player.x,
            y: player.y,
            message: player.message.clone(),
            dir: player.dir,
            actions,
        }
    }

    /// The encoding of this message.
    pub fn encode(&self) -> (r: Vec<u8>)
        requires
            self@.fits(),
        ensures
            r@ == packet_bytes(self@),
    {
        let mut out: Vec<u8> = Vec::new();
        out.push(PROTOCOL_VERSION);
        put_text(&mut out, &self.name);
        let ghost head = out@;
        put_u64(&mut out, self.id);
        put_u32(&mut out, self.x);
        put_u32(&mut out, self.y);
        let ghost mid = out@;
        assert(mid =~= head + position_bytes(self@));
        put_text(&mut out, &self.message);
        out.push(if self.dir {
            1u8
        } else {
            0u8
        });
        put_u32(&mut out, self.actions.len() as u32);
        put_actions(&mut out, &self.actions);
        assert(out@ =~= mid + tail_bytes(self@));
        assert(out@ =~= packet_bytes(self@));
        out
    }

    /// The message that `bytes` encodes; a `ProtocolError` with the reason and the bytes
    /// when they encode none.
    pub fn decode(bytes: &[u8]) -> (r: Result<PlayerPacket, ProtocolError>)
        ensures
            match r {
                Ok(p) => parse_packet(bytes@) == Ok::<PacketView, DecodeError>(p@),
                Err(e) => parse_packet(bytes@) == Err::<PacketView, DecodeError>(e.reason) && e.raw@
                    == bytes@,
            },
            r matches Ok(p) ==> packet_bytes(p@) == bytes@,
            r is Err ==> forall|v: PacketView| v.fits() ==> #[trigger] packet_bytes(v) != bytes@,
    {
        let r = Self::decode_fields(bytes);
        match r {
            Ok(p) => {
                proof {
                    lemma_encode_decode(bytes@);
                }
                Ok(p)
            },
            Err(reason) => {
                proof {
                    assert forall|v: PacketView| v.fits() implies #[trigger] packet_bytes(v) != bytes@ by {
                        lemma_decode_encode(v);
                    }
                }
                Err(ProtocolError { reason, raw: vstd::slice::slice_to_vec(bytes) })
            },
        }
    }

    fn decode_fields(b: &[u8]) -> (r: Result<PlayerPacket, DecodeError>)
        ensures
            match r {
                Ok(p) => parse_packet(b@) == Ok::<PacketView, DecodeError>(p@),
                Err(e) => parse_packet(b@) == Err::<PacketView, DecodeError>(e),
            },
    {
        let (name, p1) = match read_head(b) {
            Ok(v) => v,
            Err(e) => return Err(e),
        };
        let ((id, x, y), p2) = match read_position(b, p1) {
            Ok(v) => v,
            Err(e) => return Err(e),
        };
        let (message, p3) = match read_text(b, p2) {
            Ok(v) => v,
            Err(e) => return Err(e),
        };
        let (dir, actions) = match read_rest(b, p3) {
            Ok(v) => v,
            Err(e) => return Err(e),
        };
        let p = PlayerPacket { name, id, x, y, message, dir, actions };
        assert(p@ == parse_packet(b@)->Ok_0);
        Ok(p)
    }
}

} // verus!
