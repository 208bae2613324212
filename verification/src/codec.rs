//! The binary layout of messages.
//!
//! A message is a 32-bit variant tag followed by its fields in declaration
//! order. Numbers are fixed-width and little-endian. An identity is a 64-bit
//! length, always sixteen, and then its sixteen bytes, most significant first. A
//! display name is a 64-bit byte count and then that many bytes of UTF-8.
//! Nothing may follow the last field.

use crate::message::{MessageModel, PeerIdentity, RemoteMessage};
use crate::scalar::Scalar;
use crate::wire::{
    be128, be128_at, get_i32, get_u128, get_u32, get_u64, le32, le32_at, le64, le64_at,
    lemma_append_keeps, lemma_be128_append, lemma_be128_write, lemma_le32_append,
    lemma_le32_write, lemma_le64_append, lemma_le64_write, lemma_signed_pattern, pattern_of, put_i32, put_u128, put_u32, put_u64,
    signed_of,
};
use vstd::prelude::*;
use vstd::slice::{slice_subrange, slice_to_vec};
use vstd::utf8::*;

verus! {

/// The tag of a `Position` message.
pub const TAG_POSITION: u32 = 0;

/// The tag of a `Fire` message.
pub const TAG_FIRE: u32 = 1;

/// The tag of a `Hit` message.
pub const TAG_HIT: u32 = 2;

/// The tag of a `Die` message.
pub const TAG_DIE: u32 = 3;

/// The number of bytes that an identity occupies after its length.
pub const IDENTITY_BYTES: u64 = 16;

/// The length of the tag and the two identities that open every message.
pub const HEADER_BYTES: usize = 52;

/// An identity as it travels: its length, then its bytes.
pub open spec fn identity_field(id: PeerIdentity) -> Seq<u8> {
    le64(IDENTITY_BYTES) + be128(id)
}

/// What opens every message: the tag, the sender and the subject.
pub open spec fn header(tag: u32, sender: PeerIdentity, uuid: PeerIdentity) -> Seq<u8> {
    le32(tag) + identity_field(sender) + identity_field(uuid)
}

/// A display name as it travels: its length in bytes, then its UTF-8 bytes.
pub open spec fn name_field(name: Seq<char>) -> Seq<u8> {
    le64(encode_utf8(name).len() as u64) + encode_utf8(name)
}

/// Two coordinates and two velocity components, as they travel.
pub open spec fn motion_field(x: Scalar, y: Scalar, vx: Scalar, vy: Scalar) -> Seq<u8> {
    le32(x.bits) + le32(y.bits) + le32(vx.bits) + le32(vy.bits)
}

/// The bytes that stand for a message.
pub open spec fn encoded(m: MessageModel) -> Seq<u8> {
    match m {
        MessageModel::Position {
            sender,
            uuid,
            name,
            golds,
            level,
            x,
            y,
            vx,
            vy,
            life,
            max_life,
            angle,
            intensity,
        } => header(TAG_POSITION, sender, uuid) + name_field(name) + le32(pattern_of(golds))
            + le32(pattern_of(level)) + motion_field(x, y, vx, vy) + le32(pattern_of(life))
            + le32(pattern_of(max_life)) + le32(angle.bits) + le32(intensity.bits),
        MessageModel::Fire {
            sender,
            uuid,
            level,
            x,
            y,
            vx,
            vy,
            bullet_lifetime,
            bullet_type,
        } => header(TAG_FIRE, sender, uuid) + le32(pattern_of(level)) + motion_field(x, y, vx, vy)
            + le32(bullet_lifetime) + le32(bullet_type),
        MessageModel::Hit { sender, uuid, damage } => header(TAG_HIT, sender, uuid) + le32(
            pattern_of(damage),
        ),
        MessageModel::Die { sender, uuid } => header(TAG_DIE, sender, uuid),
    }
}

fn put_identity(out: &mut Vec<u8>, id: PeerIdentity)
    ensures
        final(out)@ == old(out)@ + identity_field(id),
{
    put_u64(out, IDENTITY_BYTES);
    put_u128(out, id);
    assert(out@ =~= old(out)@ + identity_field(id));
}

fn put_header(out: &mut Vec<u8>, tag: u32, sender: PeerIdentity, uuid: PeerIdentity)
    ensures
        final(out)@ == old(out)@ + header(tag, sender, uuid),
{
    put_u32(out, tag);
    put_identity(out, sender);
    put_identity(out, uuid);
    assert(out@ =~= old(out)@ + header(tag, sender, uuid));
}

fn put_name(out: &mut Vec<u8>, name: &String)
    ensures
        final(out)@ == old(out)@ + name_field(name@),
        encode_utf8(name@).len() <= u64::MAX,
{
    let bytes = name.as_str().as_bytes();
    put_u64(out, bytes.len() as u64);
    out.extend_from_slice(bytes);
    assert(out@ =~= old(out)@ + name_field(name@));
}

fn put_motion(out: &mut Vec<u8>, x: Scalar, y: Scalar, vx: Scalar, vy: Scalar)
    ensures
        final(out)@ == old(out)@ + motion_field(x, y, vx, vy),
{
    put_u32(out, x.bits);
    put_u32(out, y.bits);
    put_u32(out, vx.bits);
    put_u32(out, vy.bits);
    assert(out@ =~= old(out)@ + motion_field(x, y, vx, vy));
}

/// Writes a message out as bytes. Decoding them gives the message back.
pub fn encode(m: &RemoteMessage) -> (out: Vec<u8>)
    ensures
        out@ == encoded(m@),
        sendable(m@),
        decoded(out@) == Ok::<MessageModel, DecodeError>(m@),
{
    let mut out: Vec<u8> = Vec::new();
    match m {
        RemoteMessage::Position {
            sender,
            uuid,
            name,
            golds,
            level,
            x,
            y,
            vx,
            vy,
            life,
            max_life,
            angle,
            intensity,
        } => {
            put_header(&mut out, TAG_POSITION, *sender, *uuid);
            put_name(&mut out, name);
            put_i32(&mut out, *golds);
            put_i32(&mut out, *level);
            put_motion(&mut out, *x, *y, *vx, *vy);
            put_i32(&mut out, *life);
            put_i32(&mut out, *max_life);
            put_u32(&mut out, angle.bits);
            put_u32(&mut out, intensity.bits);
            assert(out@ =~= encoded(m@));
        },
        RemoteMessage::Fire {
            sender,
            uuid,
            level,
            x,
            y,
            vx,
            vy,
            bullet_lifetime,
            bullet_type,
        } => {
            put_header(&mut out, TAG_FIRE, *sender, *uuid);
            put_i32(&mut out, *level);
            put_motion(&mut out, *x, *y, *vx, *vy);
            put_u32(&mut out, *bullet_lifetime);
            put_u32(&mut out, *bullet_type);
            assert(out@ =~= encoded(m@));
        },
        RemoteMessage::Hit { sender, uuid, damage } => {
            put_header(&mut out, TAG_HIT, *sender, *uuid);
            put_i32(&mut out, *damage);
            assert(out@ =~= encoded(m@));
        },
        RemoteMessage::Die { sender, uuid } => {
            put_header(&mut out, TAG_DIE, *sender, *uuid);
            assert(out@ =~= encoded(m@));
        },
    }
    proof {
        lemma_round_trip(m@);
    }
    out
}

/// Why a sequence of bytes is not a message.
#[derive(Clone, Copy, Debug, PartialEq, Eq, Structural)]
pub enum DecodeError {
    /// The number of bytes is not the one that the layout of the variant
    /// asks for: too few to hold the fields, or some left over.
    Length,
    /// The leading tag names none of the four variants.
    UnknownTag,
    /// An identity announces a length other than sixteen.
    Identity,
    /// The bytes of the display name are not UTF-8.
    Name,
}

/// The bytes of the display name in a `Position` message of the right length.
pub open spec fn name_bytes(b: Seq<u8>) -> Seq<u8> {
    b.subrange(60, 60 + le64_at(b, 52) as int)
}

/// The scalar whose pattern is stored at `at`.
pub open spec fn scalar_at(b: Seq<u8>, at: int) -> Scalar {
    Scalar { bits: le32_at(b, at) }
}

/// The signed number stored at `at`.
pub open spec fn signed_at(b: Seq<u8>, at: int) -> i32 {
    signed_of(le32_at(b, at))
}

/// The fields of a `Position` message, read at their places. `n` is the
/// length of the display name in bytes.
pub open spec fn position_at(b: Seq<u8>, n: int) -> MessageModel {
    MessageModel::Position {
        sender: be128_at(b, 12),
        uuid: be128_at(b, 36),
        name: decode_utf8(name_bytes(b)),
        golds: signed_at(b, 60 + n),
        level: signed_at(b, 64 + n),
        x: scalar_at(b, 68 + n),
        y: scalar_at(b, 72 + n),
        vx: scalar_at(b, 76 + n),
        vy: scalar_at(b, 80 + n),
        life: signed_at(b, 84 + n),
        max_life: signed_at(b, 88 + n),
        angle: scalar_at(b, 92 + n),
        intensity: scalar_at(b, 96 + n),
    }
}

/// The fields of a `Fire` message, read at their places.
pub open spec fn fire_at(b: Seq<u8>) -> MessageModel {
    MessageModel::Fire {
        sender: be128_at(b, 12),
        uuid: be128_at(b, 36),
        level: signed_at(b, 52),
        x: scalar_at(b, 56),
        y: scalar_at(b, 60),
        vx: scalar_at(b, 64),
        vy: scalar_at(b, 68),
        bullet_lifetime: le32_at(b, 72),
        bullet_type: le32_at(b, 76),
    }
}

/// What a sequence of bytes stands for: a message, or the reason why none.
///
/// The checks come in this order: the tag, the two identities, the length
/// that the variant asks for, and last the display name.
pub open spec fn decoded(b: Seq<u8>) -> Result<MessageModel, DecodeError> {
    if b.len() < 4 {
        Err(DecodeError::Length)
    } else if le32_at(b, 0) > TAG_DIE {
        Err(DecodeError::UnknownTag)
    } else if b.len() < 52 {
        Err(DecodeError::Length)
    } else if le64_at(b, 4) != IDENTITY_BYTES || le64_at(b, 28) != IDENTITY_BYTES {
        Err(DecodeError::Identity)
    } else if le32_at(b, 0) == TAG_DIE {
        if b.len() != 52 {
            Err(DecodeError::Length)
        } else {
            Ok(MessageModel::Die { sender: be128_at(b, 12), uuid: be128_at(b, 36) })
        }
    } else if le32_at(b, 0) == TAG_HIT {
        if b.len() != 56 {
            Err(DecodeError::Length)
        } else {
            Ok(
                MessageModel::Hit {
                    sender: be128_at(b, 12),
                    uuid: be128_at(b, 36),
                    damage: signed_at(b, 52),
                },
            )
        }
    } else if le32_at(b, 0) == TAG_FIRE {
        if b.len() != 80 {
            Err(DecodeError::Length)
        } else {
            Ok(fire_at(b))
        }
    } else if b.len() < 100 || b.len() - 100 != le64_at(b, 52) {
        Err(DecodeError::Length)
    } else if !valid_utf8(name_bytes(b)) {
        Err(DecodeError::Name)
    } else {
        Ok(position_at(b, le64_at(b, 52) as int))
    }
}

/// The outcome of decoding, with the message taken by its view.
pub open spec fn outcome(r: Result<RemoteMessage, DecodeError>) -> Result<
    MessageModel,
    DecodeError,
> {
    match r {
        Ok(m) => Ok(m@),
        Err(e) => Err(e),
    }
}

/// `String::from_utf8` of the standard library. It returns a string exactly
/// when the bytes are well-formed UTF-8, and the string then consists of
/// those bytes.
#[verifier::external_body]
fn string_from_utf8(bytes: Vec<u8>) -> (r: Option<String>)
    ensures
        r is Some <==> valid_utf8(bytes@),
        r matches Some(s) ==> encode_utf8(s@) == bytes@,
{
    String::from_utf8(bytes).ok()
}

fn get_scalar(b: &[u8], at: usize) -> (s: Scalar)
    requires
        at + 4 <= b.len(),
    ensures
        s == scalar_at(b@, at as int),
{
    Scalar { bits: get_u32(b, at) }
}

/// Reads a message from bytes. It succeeds on the encoding of a message, and
/// on nothing else; the error says what is wrong with the bytes.
pub fn decode(b: &[u8]) -> (r: Result<RemoteMessage, DecodeError>)
    ensures
        outcome(r) == decoded(b@),
        r matches Ok(m) ==> encoded(m@) == b@,
        forall|m: MessageModel| sendable(m) && #[trigger] encoded(m) == b@ ==> outcome(r) == Ok::<
            MessageModel,
            DecodeError,
        >(m),
{
    proof {
        if decoded(b@) is Ok {
            lemma_decoded_is_encoded(b@);
        }
        assert forall|m: MessageModel| sendable(m) && #[trigger] encoded(m) == b@ implies decoded(
            b@,
        ) == Ok::<MessageModel, DecodeError>(m) by {
            lemma_round_trip(m);
        }
    }
    let len: usize = b.len();
    if len < 4 {
        return Err(DecodeError::Length);
    }
    let tag: u32 = get_u32(b, 0);
    if tag > TAG_DIE {
        return Err(DecodeError::UnknownTag);
    }
    if len < HEADER_BYTES {
        return Err(DecodeError::Length);
    }
    if get_u64(b, 4) != IDENTITY_BYTES || get_u64(b, 28) != IDENTITY_BYTES {
        return Err(DecodeError::Identity);
    }
    let sender: PeerIdentity = get_u128(b, 12);
    let uuid: PeerIdentity = get_u128(b, 36);
    if tag == TAG_DIE {
        if len != 52 {
            return Err(DecodeError::Length);
        }
        Ok(RemoteMessage::Die { sender, uuid })
    } else if tag == TAG_HIT {
        if len != 56 {
            return Err(DecodeError::Length);
        }
        Ok(RemoteMessage::Hit { sender, uuid, damage: get_i32(b, 52) })
    } else if tag == TAG_FIRE {
        if len != 80 {
            return Err(DecodeError::Length);
        }
        Ok(
            RemoteMessage::Fire {
                sender,
                uuid,
                level: get_i32(b, 52),
                x: get_scalar(b, 56),
                y: get_scalar(b, 60),
                vx: get_scalar(b, 64),
                vy: get_scalar(b, 68),
                bullet_lifetime: get_u32(b, 72),
                bullet_type: get_u32(b, 76),
            },
        )
    } else {
        if len < 100 {
            return Err(DecodeError::Length);
        }
        let announced: u64 = get_u64(b, 52);
        if (len - 100) as u64 != announced {
            return Err(DecodeError::Length);
        }
        let n: usize = len - 100;
        let raw: Vec<u8> = slice_to_vec(slice_subrange(b, 60, 60 + n));
        match string_from_utf8(raw) {
            None => Err(DecodeError::Name),
            Some(name) => {
                proof {
                    encode_utf8_decode_utf8(name@);
                }
                Ok(
                    RemoteMessage::Position {
                        sender,
                        uuid,
                        name,
                        golds: get_i32(b, 60 + n),
                        level: get_i32(b, 64 + n),
                        x: get_scalar(b, 68 + n),
                        y: get_scalar(b, 72 + n),
                        vx: get_scalar(b, 76 + n),
                        vy: get_scalar(b, 80 + n),
                        life: get_i32(b, 84 + n),
                        max_life: get_i32(b, 88 + n),
                        angle: get_scalar(b, 92 + n),
                        intensity: get_scalar(b, 96 + n),
                    },
                )
            },
        }
    }
}

/// Whether the display name of a message is short enough for its length to
/// be written in 64 bits. Every message that fits in memory is.
pub open spec fn sendable(m: MessageModel) -> bool {
    m matches MessageModel::Position { name, .. } ==> encode_utf8(name).len() <= u64::MAX
}

/// The tag and the two identities are read back from a header.
proof fn lemma_header_read(tag: u32, sender: PeerIdentity, uuid: PeerIdentity)
    ensures
        ({
            let b = header(tag, sender, uuid);
            &&& b.len() == 52
            &&& le32_at(b, 0) == tag
            &&& le64_at(b, 4) == IDENTITY_BYTES
            &&& be128_at(b, 12) == sender
            &&& le64_at(b, 28) == IDENTITY_BYTES
            &&& be128_at(b, 36) == uuid
        }),
{
    let c1 = Seq::<u8>::empty() + le32(tag);
    let c2 = c1 + le64(IDENTITY_BYTES);
    let c3 = c2 + be128(sender);
    let c4 = c3 + le64(IDENTITY_BYTES);
    let c5 = c4 + be128(uuid);
    lemma_le32_append(Seq::empty(), tag);
    lemma_le64_append(c1, IDENTITY_BYTES);
    lemma_be128_append(c2, sender);
    lemma_le64_append(c3, IDENTITY_BYTES);
    lemma_be128_append(c4, uuid);
    lemma_append_keeps(c1, le64(IDENTITY_BYTES));
    lemma_append_keeps(c2, be128(sender));
    lemma_append_keeps(c3, le64(IDENTITY_BYTES));
    lemma_append_keeps(c4, be128(uuid));
    assert(header(tag, sender, uuid) =~= c5);
}

/// Appends one number to `a`, after which it is read back from the end of
/// `a`, and everything in `a` is read as before.
proof fn lemma_push_word(a: Seq<u8>, v: u32) -> (r: Seq<u8>)
    ensures
        r == a + le32(v),
        r.len() == a.len() + 4,
        le32_at(r, a.len() as int) == v,
        forall|at: int| 0 <= at && at + 4 <= a.len() ==> #[trigger] le32_at(r, at) == le32_at(a, at),
        forall|at: int| 0 <= at && at + 8 <= a.len() ==> #[trigger] le64_at(r, at) == le64_at(a, at),
        forall|at: int|
            0 <= at && at + 16 <= a.len() ==> #[trigger] be128_at(r, at) == be128_at(a, at),
        forall|i: int| 0 <= i < a.len() ==> #[trigger] r[i] == a[i],
{
    lemma_le32_append(a, v);
    lemma_append_keeps(a, le32(v));
    a + le32(v)
}

proof fn lemma_round_trip_fire(m: MessageModel)
    requires
        m is Fire,
    ensures
        decoded(encoded(m)) == Ok::<MessageModel, DecodeError>(m),
{
    if let MessageModel::Fire {
        sender,
        uuid,
        level,
        x,
        y,
        vx,
        vy,
        bullet_lifetime,
        bullet_type,
    } = m {
        let h = header(TAG_FIRE, sender, uuid);
        lemma_header_read(TAG_FIRE, sender, uuid);
        let c0 = lemma_push_word(h, pattern_of(level));
        let c1 = lemma_push_word(c0, x.bits);
        let c2 = lemma_push_word(c1, y.bits);
        let c3 = lemma_push_word(c2, vx.bits);
        let c4 = lemma_push_word(c3, vy.bits);
        let c5 = lemma_push_word(c4, bullet_lifetime);
        let c6 = lemma_push_word(c5, bullet_type);
        assert(encoded(m) =~= c6);
        lemma_signed_pattern(level, 0);
        assert(decoded(c6) == Ok::<MessageModel, DecodeError>(fire_at(c6)));
    }
}

proof fn lemma_round_trip_position(m: MessageModel)
    requires
        m is Position,
        sendable(m),
    ensures
        decoded(encoded(m)) == Ok::<MessageModel, DecodeError>(m),
{
    if let MessageModel::Position {
        sender,
        uuid,
        name,
        golds,
        level,
        x,
        y,
        vx,
        vy,
        life,
        max_life,
        angle,
        intensity,
    } = m {
        let h = header(TAG_POSITION, sender, uuid);
        let raw = encode_utf8(name);
        let n = raw.len() as u64;
        lemma_header_read(TAG_POSITION, sender, uuid);
        let a = h + le64(n);
        lemma_le64_append(h, n);
        lemma_append_keeps(h, le64(n));
        let p = a + raw;
        lemma_append_keeps(a, raw);
        assert(p.len() == 60 + n);
        let c0 = lemma_push_word(p, pattern_of(golds));
        let c1 = lemma_push_word(c0, pattern_of(level));
        let c2 = lemma_push_word(c1, x.bits);
        let c3 = lemma_push_word(c2, y.bits);
        let c4 = lemma_push_word(c3, vx.bits);
        let c5 = lemma_push_word(c4, vy.bits);
        let c6 = lemma_push_word(c5, pattern_of(life));
        let c7 = lemma_push_word(c6, pattern_of(max_life));
        let c8 = lemma_push_word(c7, angle.bits);
        let c9 = lemma_push_word(c8, intensity.bits);
        assert(encoded(m) =~= c9);
        assert(le64_at(c9, 52) == n);
        assert(name_bytes(c9) =~= raw);
        encode_utf8_valid_utf8(name);
        encode_utf8_decode_utf8(name);
        lemma_signed_pattern(golds, 0);
        lemma_signed_pattern(level, 0);
        lemma_signed_pattern(life, 0);
        lemma_signed_pattern(max_life, 0);
        assert(decoded(c9) == Ok::<MessageModel, DecodeError>(position_at(c9, n as int)));
    }
}

/// Decoding the encoding of a message gives the message back, field for
/// field.
pub proof fn lemma_round_trip(m: MessageModel)
    requires
        sendable(m),
    ensures
        decoded(encoded(m)) == Ok::<MessageModel, DecodeError>(m),
{
    match m {
        MessageModel::Position { .. } => {
            lemma_round_trip_position(m);
        },
        MessageModel::Fire { .. } => {
            lemma_round_trip_fire(m);
        },
        MessageModel::Hit { sender, uuid, damage } => {
            lemma_header_read(TAG_HIT, sender, uuid);
            let c0 = lemma_push_word(header(TAG_HIT, sender, uuid), pattern_of(damage));
            lemma_signed_pattern(damage, 0);
        },
        MessageModel::Die { sender, uuid } => {
            lemma_header_read(TAG_DIE, sender, uuid);
        },
    }
}

/// The first fifty-two bytes of anything that decodes are the header of the
/// message it decodes to.
proof fn lemma_header_write(b: Seq<u8>)
    requires
        decoded(b) is Ok,
    ensures
        b.len() >= 52,
        b.subrange(0, 52) == header(le32_at(b, 0), be128_at(b, 12), be128_at(b, 36)),
{
    lemma_le32_write(b, 0);
    lemma_le64_write(b, 4);
    lemma_be128_write(b, 12);
    lemma_le64_write(b, 28);
    lemma_be128_write(b, 36);
    assert(b.subrange(0, 52) =~= b.subrange(0, 4) + (b.subrange(4, 12) + b.subrange(12, 28)) + (
    b.subrange(28, 36) + b.subrange(36, 52)));
}

/// The four bytes from `at` on are the encoding of the signed number read
/// there.
proof fn lemma_signed_write(b: Seq<u8>, at: int)
    requires
        0 <= at,
        at + 4 <= b.len(),
    ensures
        le32(pattern_of(signed_at(b, at))) == b.subrange(at, at + 4),
{
    lemma_le32_write(b, at);
    lemma_signed_pattern(0, le32_at(b, at));
}

/// Whatever decodes to a message is the encoding of that message: no two
/// byte sequences stand for the same message.
pub proof fn lemma_decoded_is_encoded(b: Seq<u8>)
    requires
        decoded(b) is Ok,
    ensures
        encoded(decoded(b)->Ok_0) == b,
        sendable(decoded(b)->Ok_0),
{
    lemma_header_write(b);
    let tag = le32_at(b, 0);
    let h = b.subrange(0, 52);
    if tag == TAG_DIE {
        assert(b =~= h);
    } else if tag == TAG_HIT {
        lemma_signed_write(b, 52);
        assert(b =~= h + b.subrange(52, 56));
    } else if tag == TAG_FIRE {
        lemma_signed_write(b, 52);
        lemma_le32_write(b, 56);
        lemma_le32_write(b, 60);
        lemma_le32_write(b, 64);
        lemma_le32_write(b, 68);
        lemma_le32_write(b, 72);
        lemma_le32_write(b, 76);
        assert(b =~= h + b.subrange(52, 56) + (b.subrange(56, 60) + b.subrange(60, 64)
            + b.subrange(64, 68) + b.subrange(68, 72)) + b.subrange(72, 76) + b.subrange(76, 80));
    } else {
        let n = le64_at(b, 52) as int;
        let raw = name_bytes(b);
        decode_utf8_encode_utf8(raw);
        lemma_le64_write(b, 52);
        lemma_signed_write(b, 60 + n);
        lemma_signed_write(b, 64 + n);
        lemma_le32_write(b, 68 + n);
        lemma_le32_write(b, 72 + n);
        lemma_le32_write(b, 76 + n);
        lemma_le32_write(b, 80 + n);
        lemma_signed_write(b, 84 + n);
        lemma_signed_write(b, 88 + n);
        lemma_le32_write(b, 92 + n);
        lemma_le32_write(b, 96 + n);
        assert(name_field(decode_utf8(raw)) == b.subrange(52, 60) + raw);
        assert(b =~= h + (b.subrange(52, 60) + raw) + b.subrange(60 + n, 64 + n) + b.subrange(
            64 + n,
            68 + n,
        ) + (b.subrange(68 + n, 72 + n) + b.subrange(72 + n, 76 + n) + b.subrange(
            76 + n,
            80 + n,
        ) + b.subrange(80 + n, 84 + n)) + b.subrange(84 + n, 88 + n) + b.subrange(
            88 + n,
            92 + n,
        ) + b.subrange(92 + n, 96 + n) + b.subrange(96 + n, 100 + n));
    }
}

} // verus!
