//! The outbound wire codec: every notification as little-endian bytes, and
//! the length-prefixed framing around whole messages.
//!
//! The codec identity — decoding any encoded notification yields an equal
//! value — is the `ensures` of `decode`: it holds for every notification,
//! not for chosen ones.

use vstd::prelude::*;
use vstd::bytes::{lemma_auto_spec_u32_to_from_le_bytes, lemma_auto_spec_u64_to_from_le_bytes,
    spec_u32_from_le_bytes, spec_u32_to_le_bytes, spec_u64_from_le_bytes, spec_u64_to_le_bytes,
    u32_from_le_bytes, u32_to_le_bytes, u64_from_le_bytes, u64_to_le_bytes};
use vstd::slice::slice_subrange;
use crate::geometry::{Direction, Vec2};
use crate::messages::{EntityUpdate, Notification, NotificationView};

verus! {

/// The largest message body the protocol allows, in bytes.
pub const MAX_MESSAGE_SIZE: usize = 8192;

/// The bias that maps an i64 onto the u64 the codec writes.
pub open spec fn spec_i64_biased(x: i64) -> u64 {
    (x as int + 0x8000_0000_0000_0000) as u64
}

/// The i64 a biased u64 stands for.
pub open spec fn spec_i64_unbiased(u: u64) -> i64 {
    (u as int - 0x8000_0000_0000_0000) as i64
}

/// An i64 on the wire: its biased value, little endian.
pub open spec fn spec_i64_le(x: i64) -> Seq<u8> {
    spec_u64_to_le_bytes(spec_i64_biased(x))
}

/// The wire code of an optional direction.
pub open spec fn spec_dir_code(d: Option<Direction>) -> u8 {
    match d {
        None => 0,
        Some(Direction::North) => 1,
        Some(Direction::South) => 2,
        Some(Direction::East) => 3,
        Some(Direction::West) => 4,
    }
}

/// One update record on the wire: 48 bytes.
pub open spec fn spec_update_bytes(u: EntityUpdate) -> Seq<u8> {
    spec_u64_to_le_bytes(u.entity_id) + spec_i64_le(u.position.x) + spec_i64_le(u.position.y)
        + spec_i64_le(u.speed.x) + spec_i64_le(u.speed.y) + spec_u64_to_le_bytes(u.pv)
}

/// A list of update records on the wire, in order.
pub open spec fn spec_updates_bytes(s: Seq<EntityUpdate>) -> Seq<u8>
    decreases s.len(),
{
    if s.len() == 0 {
        Seq::<u8>::empty()
    } else {
        spec_update_bytes(s[0]) + spec_updates_bytes(s.drop_first())
    }
}

/// Whether a notification fits the wire format's counters.
pub open spec fn codec_size_ok(v: NotificationView) -> bool {
    match v {
        NotificationView::Say { message, .. } => message.len() <= u32::MAX,
        NotificationView::GameUpdate { entities, .. } => entities.len() <= u32::MAX,
        _ => true,
    }
}

/// The tag byte that starts a notification's encoding.
pub open spec fn spec_tag(v: NotificationView) -> u8 {
    match v {
        NotificationView::Walk { .. } => 0,
        NotificationView::Say { .. } => 1,
        NotificationView::GameUpdate { .. } => 2,
        NotificationView::ThisIsYou { .. } => 3,
        NotificationView::NewEntity { .. } => 4,
        NotificationView::EntityHasQuit { .. } => 5,
        NotificationView::Damage { .. } => 6,
        NotificationView::Death { .. } => 7,
    }
}

/// A notification on the wire.
pub open spec fn spec_encode(v: NotificationView) -> Seq<u8> {
    match v {
        NotificationView::Walk { entity, orientation } => seq![0u8] + spec_u64_to_le_bytes(entity)
            + seq![spec_dir_code(orientation)],
        NotificationView::Say { entity, message } => seq![1u8] + spec_u64_to_le_bytes(entity)
            + spec_u32_to_le_bytes(message.len() as u32) + message,
        NotificationView::GameUpdate { tick_id, entities } => seq![2u8] + spec_u64_to_le_bytes(
            tick_id,
        ) + spec_u32_to_le_bytes(entities.len() as u32) + spec_updates_bytes(entities),
        NotificationView::ThisIsYou { entity } => seq![3u8] + spec_u64_to_le_bytes(entity),
        NotificationView::NewEntity { entity, position, skin, pv, nominal_speed } => seq![4u8]
            + spec_u64_to_le_bytes(entity) + spec_i64_le(position.x) + spec_i64_le(position.y)
            + spec_u64_to_le_bytes(skin) + spec_u64_to_le_bytes(pv) + spec_u32_to_le_bytes(
            nominal_speed,
        ),
        NotificationView::EntityHasQuit { entity } => seq![5u8] + spec_u64_to_le_bytes(entity),
        NotificationView::Damage { source, victim, amount } => seq![6u8] + spec_u64_to_le_bytes(
            source,
        ) + spec_u64_to_le_bytes(victim) + spec_u64_to_le_bytes(amount),
        NotificationView::Death { entity } => seq![7u8] + spec_u64_to_le_bytes(entity),
    }
}

/// Writes an i64 as its biased little-endian bytes.
fn i64_to_le(x: i64) -> (r: Vec<u8>)
    ensures
        r@ == spec_i64_le(x),
        r@.len() == 8,
{
    let biased: u64 = ((x as i128) + 0x8000_0000_0000_0000i128) as u64;
    proof {
        assert(biased == spec_i64_biased(x));
        lemma_auto_spec_u64_to_from_le_bytes();
    }
    u64_to_le_bytes(biased)
}

/// Reads the i64 whose biased bytes start at `at`.
fn read_i64(buf: &Vec<u8>, at: usize) -> (r: i64)
    requires
        at + 8 <= buf@.len(),
    ensures
        r == spec_i64_unbiased(spec_u64_from_le_bytes(buf@.subrange(at as int, at as int + 8))),
{
    let n = buf.len();
    let u = u64_from_le_bytes(slice_subrange(buf.as_slice(), at, at + 8));
    ((u as i128) - 0x8000_0000_0000_0000i128) as i64
}

fn read_u64(buf: &Vec<u8>, at: usize) -> (r: u64)
    requires
        at + 8 <= buf@.len(),
    ensures
        r == spec_u64_from_le_bytes(buf@.subrange(at as int, at as int + 8)),
{
    let n = buf.len();
    u64_from_le_bytes(slice_subrange(buf.as_slice(), at, at + 8))
}

fn read_u32(buf: &Vec<u8>, at: usize) -> (r: u32)
    requires
        at + 4 <= buf@.len(),
    ensures
        r == spec_u32_from_le_bytes(buf@.subrange(at as int, at as int + 4)),
{
    let n = buf.len();
    u32_from_le_bytes(slice_subrange(buf.as_slice(), at, at + 4))
}

/// Unbiasing inverts biasing.
pub proof fn lemma_i64_round_trip(x: i64)
    ensures
        spec_i64_unbiased(spec_u64_from_le_bytes(spec_i64_le(x))) == x,
        spec_i64_le(x).len() == 8,
{
    lemma_auto_spec_u64_to_from_le_bytes();
}

/// The parse of one 48-byte update record.
pub open spec fn spec_parse_update(b: Seq<u8>) -> EntityUpdate {
    EntityUpdate {
        entity_id: spec_u64_from_le_bytes(b.subrange(0, 8)),
        position: Vec2 {
            x: spec_i64_unbiased(spec_u64_from_le_bytes(b.subrange(8, 16))),
            y: spec_i64_unbiased(spec_u64_from_le_bytes(b.subrange(16, 24))),
        },
        speed: Vec2 {
            x: spec_i64_unbiased(spec_u64_from_le_bytes(b.subrange(24, 32))),
            y: spec_i64_unbiased(spec_u64_from_le_bytes(b.subrange(32, 40))),
        },
        pv: spec_u64_from_le_bytes(b.subrange(40, 48)),
    }
}

/// Parsing an encoded record yields the record.
pub proof fn lemma_update_round_trip(u: EntityUpdate)
    ensures
        spec_update_bytes(u).len() == 48,
        spec_parse_update(spec_update_bytes(u)) == u,
{
    lemma_auto_spec_u64_to_from_le_bytes();
    let b = spec_update_bytes(u);
    assert(b.subrange(0, 8) =~= spec_u64_to_le_bytes(u.entity_id));
    assert(b.subrange(8, 16) =~= spec_i64_le(u.position.x));
    assert(b.subrange(16, 24) =~= spec_i64_le(u.position.y));
    assert(b.subrange(24, 32) =~= spec_i64_le(u.speed.x));
    assert(b.subrange(32, 40) =~= spec_i64_le(u.speed.y));
    assert(b.subrange(40, 48) =~= spec_u64_to_le_bytes(u.pv));
    lemma_i64_round_trip(u.position.x);
    lemma_i64_round_trip(u.position.y);
    lemma_i64_round_trip(u.speed.x);
    lemma_i64_round_trip(u.speed.y);
}

/// Layout of an encoded record list: 48 bytes per record, the t-th record's
/// bytes at offset 48·t.
pub proof fn lemma_updates_layout(s: Seq<EntityUpdate>)
    ensures
        spec_updates_bytes(s).len() == 48 * s.len(),
        forall|t: int|
            0 <= t < s.len() ==> spec_updates_bytes(s).subrange(48 * t, 48 * t + 48)
                == spec_update_bytes(#[trigger] s[t]),
    decreases s.len(),
{
    if s.len() == 0 {
    } else {
        let rest = s.drop_first();
        lemma_updates_layout(rest);
        lemma_update_round_trip(s[0]);
        assert(spec_updates_bytes(s) == spec_update_bytes(s[0]) + spec_updates_bytes(rest));
        assert forall|t: int|
            0 <= t < s.len() implies spec_updates_bytes(s).subrange(48 * t, 48 * t + 48)
            == spec_update_bytes(#[trigger] s[t]) by {
            if t == 0 {
                assert(spec_updates_bytes(s).subrange(0, 48) =~= spec_update_bytes(s[0]));
            } else {
                assert(rest[t - 1] == s[t]);
                assert(spec_updates_bytes(s).subrange(48 * t, 48 * t + 48)
                    =~= spec_updates_bytes(rest).subrange(48 * (t - 1), 48 * (t - 1) + 48));
            }
        }
    }
}

/// Encodes one update record.
fn encode_update(u: &EntityUpdate, out: &mut Vec<u8>)
    ensures
        final(out)@ == old(out)@ + spec_update_bytes(*u),
{
    let mut b = u64_to_le_bytes(u.entity_id);
    out.append(&mut b);
    let mut b = i64_to_le(u.position.x);
    out.append(&mut b);
    let mut b = i64_to_le(u.position.y);
    out.append(&mut b);
    let mut b = i64_to_le(u.speed.x);
    out.append(&mut b);
    let mut b = i64_to_le(u.speed.y);
    out.append(&mut b);
    let mut b = u64_to_le_bytes(u.pv);
    out.append(&mut b);
    proof {
        assert(final(out)@ =~= old(out)@ + spec_update_bytes(*u));
    }
}

/// Encodes a notification, unless a counter of the wire format would
/// overflow; the message size cap is enforced at framing.
pub fn encode(n: &Notification) -> (r: Option<Vec<u8>>)
    ensures
        match r {
            Some(b) => codec_size_ok(n@) && b@ == spec_encode(n@),
            None => !codec_size_ok(n@),
        },
{
    let mut out: Vec<u8> = Vec::new();
    match n {
        Notification::Walk { entity, orientation } => {
            out.push(0);
            let mut b = u64_to_le_bytes(*entity);
            out.append(&mut b);
            let code: u8 = match orientation {
                None => 0,
                Some(Direction::North) => 1,
                Some(Direction::South) => 2,
                Some(Direction::East) => 3,
                Some(Direction::West) => 4,
            };
            out.push(code);
            proof {
                assert(out@ =~= spec_encode(n@));
            }
            Some(out)
        },
        Notification::Say { entity, message } => {
            if message.len() as u64 > u32::MAX as u64 {
                return None;
            }
            out.push(1);
            let mut b = u64_to_le_bytes(*entity);
            out.append(&mut b);
            let mut b = u32_to_le_bytes(message.len() as u32);
            out.append(&mut b);
            let mut b = crate::messages::copy_bytes(message);
            out.append(&mut b);
            proof {
                assert(out@ =~= spec_encode(n@));
            }
            Some(out)
        },
        Notification::GameUpdate { tick_id, entities } => {
            if entities.len() as u64 > u32::MAX as u64 {
                return None;
            }
            out.push(2);
            let mut b = u64_to_le_bytes(*tick_id);
            out.append(&mut b);
            let mut b = u32_to_le_bytes(entities.len() as u32);
            out.append(&mut b);
            let ghost header = out@;
            let mut k: usize = 0;
            while k < entities.len()
                invariant
                    k <= entities@.len(),
                    out@ == header + spec_updates_bytes(entities@.take(k as int)),
                decreases entities@.len() - k,
            {
                encode_update(&entities[k], &mut out);
                proof {
                    lemma_updates_take_snoc(entities@, k as int);
                }
                k = k + 1;
            }
            proof {
                assert(entities@.take(entities@.len() as int) =~= entities@);
                assert(out@ =~= spec_encode(n@));
            }
            Some(out)
        },
        Notification::ThisIsYou { entity } => {
            out.push(3);
            let mut b = u64_to_le_bytes(*entity);
            out.append(&mut b);
            proof {
                assert(out@ =~= spec_encode(n@));
            }
            Some(out)
        },
        Notification::NewEntity { entity, position, skin, pv, nominal_speed } => {
            out.push(4);
            let mut b = u64_to_le_bytes(*entity);
            out.append(&mut b);
            let mut b = i64_to_le(position.x);
            out.append(&mut b);
            let mut b = i64_to_le(position.y);
            out.append(&mut b);
            let mut b = u64_to_le_bytes(*skin);
            out.append(&mut b);
            let mut b = u64_to_le_bytes(*pv);
            out.append(&mut b);
            let mut b = u32_to_le_bytes(*nominal_speed);
            out.append(&mut b);
            proof {
                assert(out@ =~= spec_encode(n@));
            }
            Some(out)
        },
        Notification::EntityHasQuit { entity } => {
            out.push(5);
            let mut b = u64_to_le_bytes(*entity);
            out.append(&mut b);
            proof {
                assert(out@ =~= spec_encode(n@));
            }
            Some(out)
        },
        Notification::Damage { source, victim, amount } => {
            out.push(6);
            let mut b = u64_to_le_bytes(*source);
            out.append(&mut b);
            let mut b = u64_to_le_bytes(*victim);
            out.append(&mut b);
            let mut b = u64_to_le_bytes(*amount);
            out.append(&mut b);
            proof {
                assert(out@ =~= spec_encode(n@));
            }
            Some(out)
        },
        Notification::Death { entity } => {
            out.push(7);
            let mut b = u64_to_le_bytes(*entity);
            out.append(&mut b);
            proof {
                assert(out@ =~= spec_encode(n@));
            }
            Some(out)
        },
    }
}

/// Appending one more record appends its bytes.
pub proof fn lemma_updates_take_snoc(s: Seq<EntityUpdate>, k: int)
    requires
        0 <= k < s.len(),
    ensures
        spec_updates_bytes(s.take(k + 1)) == spec_updates_bytes(s.take(k)) + spec_update_bytes(
            s[k],
        ),
    decreases k,
{
    if k == 0 {
        assert(s.take(1) =~= seq![s[0]]);
        assert(s.take(1).drop_first() =~= Seq::<EntityUpdate>::empty());
        assert(s.take(0) =~= Seq::<EntityUpdate>::empty());
        assert(spec_updates_bytes(Seq::<EntityUpdate>::empty()) == Seq::<u8>::empty());
        assert(s.take(1)[0] == s[0]);
        assert(spec_updates_bytes(s.take(1)) == spec_update_bytes(s[0]) + Seq::<u8>::empty());
        assert(spec_updates_bytes(s.take(1)) =~= Seq::<u8>::empty() + spec_update_bytes(s[0]));
    } else {
        lemma_updates_take_snoc(s.drop_first(), k - 1);
        assert(s.take(k + 1).drop_first() =~= s.drop_first().take(k));
        assert(s.take(k).drop_first() =~= s.drop_first().take(k - 1));
        assert(s.take(k + 1)[0] == s[0] && s.take(k)[0] == s[0]);
        assert(s.drop_first()[k - 1] == s[k]);
        assert(spec_updates_bytes(s.take(k + 1)) == spec_update_bytes(s[0])
            + spec_updates_bytes(s.drop_first().take(k)));
        assert(spec_updates_bytes(s.take(k)) == spec_update_bytes(s[0]) + spec_updates_bytes(
            s.drop_first().take(k - 1),
        ));
        assert(spec_updates_bytes(s.take(k + 1)) =~= spec_updates_bytes(s.take(k))
            + spec_update_bytes(s[k]));
    }
}

/// The first byte and the exact length of every encoding.
pub proof fn lemma_encode_layout(v: NotificationView)
    ensures
        spec_encode(v).len() >= 9,
        spec_encode(v)[0] == spec_tag(v),
        v matches NotificationView::Walk { .. } ==> spec_encode(v).len() == 10,
        v matches NotificationView::Say { message, .. } ==> spec_encode(v).len() == 13
            + message.len(),
        v matches NotificationView::GameUpdate { entities, .. } ==> spec_encode(v).len() == 13 + 48
            * entities.len(),
        v matches NotificationView::ThisIsYou { .. } ==> spec_encode(v).len() == 9,
        v matches NotificationView::NewEntity { .. } ==> spec_encode(v).len() == 45,
        v matches NotificationView::EntityHasQuit { .. } ==> spec_encode(v).len() == 9,
        v matches NotificationView::Damage { .. } ==> spec_encode(v).len() == 25,
        v matches NotificationView::Death { .. } ==> spec_encode(v).len() == 9,
{
    lemma_auto_spec_u64_to_from_le_bytes();
    lemma_auto_spec_u32_to_from_le_bytes();
    match v {
        NotificationView::GameUpdate { entities, .. } => {
            lemma_updates_layout(entities);
        },
        _ => {},
    }
}

/// Copies `n` bytes starting at `at`.
fn read_bytes(buf: &Vec<u8>, at: usize, n: usize) -> (r: Vec<u8>)
    requires
        at + n <= buf@.len(),
    ensures
        r@ == buf@.subrange(at as int, at as int + n as int),
{
    let total = buf.len();
    let mut r: Vec<u8> = Vec::new();
    let mut i: usize = 0;
    while i < n
        invariant
            i <= n,
            at + n <= total,
            total == buf@.len(),
            r@ == buf@.subrange(at as int, at as int + i as int),
        decreases n - i,
    {
        r.push(buf[at + i]);
        proof {
            assert(r@ =~= buf@.subrange(at as int, at as int + i as int + 1));
        }
        i = i + 1;
    }
    r
}

/// Decodes a notification.  The codec identity: for every notification
/// value that fits the wire format, decoding its encoding yields an equal
/// value.  Bytes that are no encoding may decode to anything or nothing.
#[verifier::rlimit(100)]
pub fn decode(buf: &Vec<u8>) -> (r: Option<Notification>)
    ensures
        forall|v: NotificationView|
            codec_size_ok(v) && buf@ == #[trigger] spec_encode(v) ==> (r matches Some(m)
                && m@ == v),
{
    proof {
        lemma_auto_spec_u64_to_from_le_bytes();
        lemma_auto_spec_u32_to_from_le_bytes();
    }
    if buf.len() < 9 {
        proof {
            assert forall|v: NotificationView|
                codec_size_ok(v) && buf@ == spec_encode(v) implies false by {
                lemma_encode_layout(v);
            }
        }
        return None;
    }
    let tag = buf[0];
    if tag == 0 {
        if buf.len() < 10 {
            proof {
                assert forall|v: NotificationView|
                    codec_size_ok(v) && buf@ == spec_encode(v) implies false by {
                    lemma_encode_layout(v);
                }
            }
            return None;
        }
        let entity = read_u64(buf, 1);
        let code = buf[9];
        let orientation: Option<Direction> = if code == 0 {
            None
        } else if code == 1 {
            Some(Direction::North)
        } else if code == 2 {
            Some(Direction::South)
        } else if code == 3 {
            Some(Direction::East)
        } else if code == 4 {
            Some(Direction::West)
        } else {
            proof {
                assert forall|v: NotificationView|
                    codec_size_ok(v) && buf@ == spec_encode(v) implies false by {
                    lemma_encode_layout(v);
                    assert(buf@[9] == spec_dir_code(v->Walk_orientation));
                }
            }
            return None;
        };
        let m = Notification::Walk { entity, orientation };
        proof {
            assert forall|v: NotificationView|
                codec_size_ok(v) && buf@ == spec_encode(v) implies m@ == v by {
                lemma_encode_layout(v);
                assert(buf@[0] == spec_tag(v));
                assert(buf@.subrange(1, 9) =~= spec_u64_to_le_bytes(v->Walk_entity));
                assert(buf@[9] == spec_dir_code(v->Walk_orientation));
            }
        }
        Some(m)
    } else if tag == 1 {
        if buf.len() < 13 {
            proof {
                assert forall|v: NotificationView|
                    codec_size_ok(v) && buf@ == spec_encode(v) implies false by {
                    lemma_encode_layout(v);
                }
            }
            return None;
        }
        let mlen = read_u32(buf, 9);
        let total: u64 = 13u64 + mlen as u64;
        if total > buf.len() as u64 {
            proof {
                assert forall|v: NotificationView|
                    codec_size_ok(v) && buf@ == spec_encode(v) implies false by {
                    lemma_encode_layout(v);
                    assert(buf@.subrange(9, 13) =~= spec_u32_to_le_bytes(
                        v->Say_message.len() as u32,
                    ));
                }
            }
            return None;
        }
        let entity = read_u64(buf, 1);
        let message = read_bytes(buf, 13, mlen as usize);
        let m = Notification::Say { entity, message };
        proof {
            assert forall|v: NotificationView|
                codec_size_ok(v) && buf@ == spec_encode(v) implies m@ == v by {
                lemma_encode_layout(v);
                assert(buf@[0] == spec_tag(v));
                let vmsg = v->Say_message;
                assert(buf@.subrange(1, 9) =~= spec_u64_to_le_bytes(v->Say_entity));
                assert(buf@.subrange(9, 13) =~= spec_u32_to_le_bytes(vmsg.len() as u32));
                assert(mlen == vmsg.len() as u32);
                assert(buf@.subrange(13, 13 + mlen as int) =~= vmsg);
            }
        }
        Some(m)
    } else if tag == 2 {
        if buf.len() < 13 {
            proof {
                assert forall|v: NotificationView|
                    codec_size_ok(v) && buf@ == spec_encode(v) implies false by {
                    lemma_encode_layout(v);
                }
            }
            return None;
        }
        let count = read_u32(buf, 9);
        let total: u64 = 13u64 + count as u64 * 48u64;
        if total > buf.len() as u64 {
            proof {
                assert forall|v: NotificationView|
                    codec_size_ok(v) && buf@ == spec_encode(v) implies false by {
                    lemma_encode_layout(v);
                    assert(buf@.subrange(9, 13) =~= spec_u32_to_le_bytes(
                        v->GameUpdate_entities.len() as u32,
                    ));
                }
            }
            return None;
        }
        let total_len = buf.len();
        let tick_id = read_u64(buf, 1);
        let mut entities: Vec<EntityUpdate> = Vec::new();
        let mut k: usize = 0;
        while k < count as usize
            invariant
                13 + count as int * 48 <= buf@.len(),
                total_len == buf@.len(),
                k <= count as usize,
                entities@.len() == k,
                forall|t: int|
                    0 <= t < k ==> entities@[t] == spec_parse_update(
                        buf@.subrange(13 + 48 * t, 13 + 48 * t + 48),
                    ),
            decreases count as usize - k,
        {
            proof {
                assert(13 + (k as int) * 48 + 48 <= 13 + (count as int) * 48) by (
                nonlinear_arith)
                    requires
                        (k as int) < (count as int),
                ;
            }
            let at = 13 + k * 48;
            let entity_id = read_u64(buf, at);
            let px = read_i64(buf, at + 8);
            let py = read_i64(buf, at + 16);
            let sx = read_i64(buf, at + 24);
            let sy = read_i64(buf, at + 32);
            let pv = read_u64(buf, at + 40);
            let record = EntityUpdate {
                entity_id,
                position: Vec2 { x: px, y: py },
                speed: Vec2 { x: sx, y: sy },
                pv,
            };
            proof {
                let b = buf@.subrange(13 + 48 * k as int, 13 + 48 * k as int + 48);
                assert(b.subrange(0, 8) =~= buf@.subrange(
                    13 + 48 * k as int,
                    13 + 48 * k as int + 8,
                ));
                assert(b.subrange(8, 16) =~= buf@.subrange(
                    13 + 48 * k as int + 8,
                    13 + 48 * k as int + 16,
                ));
                assert(b.subrange(16, 24) =~= buf@.subrange(
                    13 + 48 * k as int + 16,
                    13 + 48 * k as int + 24,
                ));
                assert(b.subrange(24, 32) =~= buf@.subrange(
                    13 + 48 * k as int + 24,
                    13 + 48 * k as int + 32,
                ));
                assert(b.subrange(32, 40) =~= buf@.subrange(
                    13 + 48 * k as int + 32,
                    13 + 48 * k as int + 40,
                ));
                assert(b.subrange(40, 48) =~= buf@.subrange(
                    13 + 48 * k as int + 40,
                    13 + 48 * k as int + 48,
                ));
                assert(record == spec_parse_update(b));
            }
            entities.push(record);
            k = k + 1;
        }
        let m = Notification::GameUpdate { tick_id, entities };
        proof {
            assert forall|v: NotificationView|
                codec_size_ok(v) && buf@ == spec_encode(v) implies m@ == v by {
                lemma_encode_layout(v);
                assert(buf@[0] == spec_tag(v));
                let ves = v->GameUpdate_entities;
                lemma_updates_layout(ves);
                assert(buf@.subrange(1, 9) =~= spec_u64_to_le_bytes(v->GameUpdate_tick_id));
                assert(buf@.subrange(9, 13) =~= spec_u32_to_le_bytes(ves.len() as u32));
                assert(count == ves.len() as u32);
                assert forall|t: int| 0 <= t < ves.len() implies entities@[t] == ves[t] by {
                    assert(buf@.subrange(13 + 48 * t, 13 + 48 * t + 48) =~= spec_updates_bytes(
                        ves,
                    ).subrange(48 * t, 48 * t + 48));
                    lemma_update_round_trip(ves[t]);
                }
                assert(entities@ =~= ves);
            }
        }
        Some(m)
    } else if tag == 3 {
        let entity = read_u64(buf, 1);
        let m = Notification::ThisIsYou { entity };
        proof {
            assert forall|v: NotificationView|
                codec_size_ok(v) && buf@ == spec_encode(v) implies m@ == v by {
                lemma_encode_layout(v);
                assert(buf@[0] == spec_tag(v));
                assert(buf@.subrange(1, 9) =~= spec_u64_to_le_bytes(v->ThisIsYou_entity));
            }
        }
        Some(m)
    } else if tag == 4 {
        if buf.len() < 45 {
            proof {
                assert forall|v: NotificationView|
                    codec_size_ok(v) && buf@ == spec_encode(v) implies false by {
                    lemma_encode_layout(v);
                }
            }
            return None;
        }
        let entity = read_u64(buf, 1);
        let px = read_i64(buf, 9);
        let py = read_i64(buf, 17);
        let skin = read_u64(buf, 25);
        let pv = read_u64(buf, 33);
        let nominal_speed = read_u32(buf, 41);
        let m = Notification::NewEntity {
            entity,
            position: Vec2 { x: px, y: py },
            skin,
            pv,
            nominal_speed,
        };
        proof {
            assert forall|v: NotificationView|
                codec_size_ok(v) && buf@ == spec_encode(v) implies m@ == v by {
                lemma_encode_layout(v);
                assert(buf@[0] == spec_tag(v));
                assert(buf@.subrange(1, 9) =~= spec_u64_to_le_bytes(v->NewEntity_entity));
                assert(buf@.subrange(9, 17) =~= spec_i64_le(v->NewEntity_position.x));
                assert(buf@.subrange(17, 25) =~= spec_i64_le(v->NewEntity_position.y));
                assert(buf@.subrange(25, 33) =~= spec_u64_to_le_bytes(v->NewEntity_skin));
                assert(buf@.subrange(33, 41) =~= spec_u64_to_le_bytes(v->NewEntity_pv));
                assert(buf@.subrange(41, 45) =~= spec_u32_to_le_bytes(v->NewEntity_nominal_speed));
                lemma_i64_round_trip(v->NewEntity_position.x);
                lemma_i64_round_trip(v->NewEntity_position.y);
            }
        }
        Some(m)
    } else if tag == 5 {
        let entity = read_u64(buf, 1);
        let m = Notification::EntityHasQuit { entity };
        proof {
            assert forall|v: NotificationView|
                codec_size_ok(v) && buf@ == spec_encode(v) implies m@ == v by {
                lemma_encode_layout(v);
                assert(buf@[0] == spec_tag(v));
                assert(buf@.subrange(1, 9) =~= spec_u64_to_le_bytes(v->EntityHasQuit_entity));
            }
        }
        Some(m)
    } else if tag == 6 {
        if buf.len() < 25 {
            proof {
                assert forall|v: NotificationView|
                    codec_size_ok(v) && buf@ == spec_encode(v) implies false by {
                    lemma_encode_layout(v);
                }
            }
            return None;
        }
        let source = read_u64(buf, 1);
        let victim = read_u64(buf, 9);
        let amount = read_u64(buf, 17);
        let m = Notification::Damage { source, victim, amount };
        proof {
            assert forall|v: NotificationView|
                codec_size_ok(v) && buf@ == spec_encode(v) implies m@ == v by {
                lemma_encode_layout(v);
                assert(buf@[0] == spec_tag(v));
                assert(buf@.subrange(1, 9) =~= spec_u64_to_le_bytes(v->Damage_source));
                assert(buf@.subrange(9, 17) =~= spec_u64_to_le_bytes(v->Damage_victim));
                assert(buf@.subrange(17, 25) =~= spec_u64_to_le_bytes(v->Damage_amount));
            }
        }
        Some(m)
    } else if tag == 7 {
        let entity = read_u64(buf, 1);
        let m = Notification::Death { entity };
        proof {
            assert forall|v: NotificationView|
                codec_size_ok(v) && buf@ == spec_encode(v) implies m@ == v by {
                lemma_encode_layout(v);
                assert(buf@[0] == spec_tag(v));
                assert(buf@.subrange(1, 9) =~= spec_u64_to_le_bytes(v->Death_entity));
            }
        }
        Some(m)
    } else {
        proof {
            assert forall|v: NotificationView|
                codec_size_ok(v) && buf@ == spec_encode(v) implies false by {
                lemma_encode_layout(v);
            }
        }
        None
    }
}

/// What parsing a framed stream yields.
pub enum FrameResult {
    /// Not enough bytes yet for a length or a whole body.
    Incomplete,
    /// The announced body exceeds the size cap: a protocol error.
    TooBig,
    /// One whole message, and how many bytes of the stream it used.
    Frame { body: Vec<u8>, consumed: usize },
}

/// Wraps one message body in its length-prefixed frame: eight bytes of
/// little-endian length, then the body; a body over the cap is refused.
pub fn frame_message(body: &Vec<u8>) -> (r: Option<Vec<u8>>)
    ensures
        match r {
            Some(f) => body@.len() <= MAX_MESSAGE_SIZE && f@ == spec_u64_to_le_bytes(
                body@.len() as u64,
            ) + body@,
            None => body@.len() > MAX_MESSAGE_SIZE,
        },
{
    if body.len() > MAX_MESSAGE_SIZE {
        return None;
    }
    let mut framed = u64_to_le_bytes(body.len() as u64);
    let mut copy = crate::messages::copy_bytes(body);
    framed.append(&mut copy);
    Some(framed)
}

/// Parses the front of a framed stream: needs eight bytes for the length,
/// refuses a length over the cap, and otherwise waits until the whole body
/// is there and hands it out with the count of bytes consumed.
pub fn decode_frame(buf: &Vec<u8>) -> (r: FrameResult)
    ensures
        ({
            let size = spec_u64_from_le_bytes(buf@.subrange(0, 8)) as int;
            match r {
                FrameResult::Incomplete => buf@.len() < 8 || (size <= MAX_MESSAGE_SIZE && buf@.len()
                    < 8 + size),
                FrameResult::TooBig => buf@.len() >= 8 && size > MAX_MESSAGE_SIZE,
                FrameResult::Frame { body, consumed } => buf@.len() >= 8 && size
                    <= MAX_MESSAGE_SIZE && buf@.len() >= 8 + size && body@ == buf@.subrange(
                    8,
                    8 + size,
                ) && consumed == 8 + size,
            }
        }),
{
    if buf.len() < 8 {
        return FrameResult::Incomplete;
    }
    let size = read_u64(buf, 0);
    if size > MAX_MESSAGE_SIZE as u64 {
        return FrameResult::TooBig;
    }
    let size = size as usize;
    if buf.len() < 8 + size {
        return FrameResult::Incomplete;
    }
    let body = read_bytes(buf, 8, size);
    FrameResult::Frame { body, consumed: 8 + size }
}

} // verus!
