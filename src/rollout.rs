//! Deterministic percentage rollout: 32-bit FNV-1a over `flagKey:userId`.
use vstd::prelude::*;
use vstd::utf8::encode_utf8;
use crate::value::{Number, SCALE};

verus! {

pub const FNV_OFFSET: u32 = 0x811c9dc5;

pub const FNV_PRIME: u32 = 0x01000193;

/// 32-bit FNV-1a of `bytes`: one XOR, then one wrapping multiplication, per byte.
pub open spec fn fnv1a(bytes: Seq<u8>) -> u32
    decreases bytes.len(),
{
    if bytes.len() == 0 {
        FNV_OFFSET
    } else {
        (fnv1a(bytes.drop_last()) ^ (bytes.last() as u32)).wrapping_mul(FNV_PRIME)
    }
}

/// The UTF-8 bytes of `key:user`.
pub open spec fn rollout_bytes(key: Seq<char>, user: Seq<char>) -> Seq<u8> {
    encode_utf8(key) + seq![':' as u8] + encode_utf8(user)
}

/// Whether the bucket hash/2^32 of `key:user` lies below `p`, a number given
/// times 10^18.
pub open spec fn rollout_spec(key: Seq<char>, user: Seq<char>, p: int) -> bool {
    (fnv1a(rollout_bytes(key, user)) as int) * (SCALE as int) < p * 0x1_0000_0000
}

fn push_all(v: &mut Vec<u8>, b: &[u8])
    ensures
        final(v)@ == old(v)@ + b@,
{
    let mut i: usize = 0;
    while i < b.len()
        invariant
            i <= b@.len(),
            v@ == old(v)@ + b@.subrange(0, i as int),
        decreases b@.len() - i,
    {
        v.push(b[i]);
        i = i + 1;
        assert(v@ =~= old(v)@ + b@.subrange(0, i as int));
    }
    assert(b@.subrange(0, b@.len() as int) =~= b@);
}

/// Decides whether the user `user_id` is in the first `p` share of the flag
/// `flag_key`'s users. The same arguments always give the same answer.
pub fn rollout(flag_key: &str, user_id: &str, p: Number) -> (r: bool)
    ensures
        r == rollout_spec(flag_key@, user_id@, p@),
{
    let mut bytes: Vec<u8> = Vec::new();
    push_all(&mut bytes, flag_key.as_bytes());
    bytes.push(0x3a);
    push_all(&mut bytes, user_id.as_bytes());
    assert(bytes@ =~= rollout_bytes(flag_key@, user_id@));
    let mut hash: u32 = FNV_OFFSET;
    let mut i: usize = 0;
    assert(bytes@.subrange(0, 0) =~= Seq::<u8>::empty());
    while i < bytes.len()
        invariant
            i <= bytes@.len(),
            hash == fnv1a(bytes@.subrange(0, i as int)),
        decreases bytes@.len() - i,
    {
        assert(bytes@.subrange(0, i + 1).drop_last() =~= bytes@.subrange(0, i as int));
        hash = hash ^ (bytes[i] as u32);
        hash = hash.wrapping_mul(FNV_PRIME);
        i = i + 1;
    }
    assert(bytes@.subrange(0, i as int) =~= bytes@);
    let h = hash as i128;
    if p.scaled >= SCALE {
        assert((h as int) * (SCALE as int) < p@ * 0x1_0000_0000) by (nonlinear_arith)
            requires
                0 <= h < 0x1_0000_0000,
                p@ >= SCALE,
                SCALE > 0,
        ;
        true
    } else if p.scaled <= 0 {
        assert(!((h as int) * (SCALE as int) < p@ * 0x1_0000_0000)) by (nonlinear_arith)
            requires
                0 <= h,
                p@ <= 0,
                SCALE > 0,
        ;
        false
    } else {
        h * SCALE < p.scaled * 0x1_0000_0000
    }
}

/// Rollout is a function of its inputs: equal flag keys, user ids and shares
/// give equal decisions.
pub proof fn rollout_deterministic(
    key1: Seq<char>,
    user1: Seq<char>,
    share_a: int,
    key2: Seq<char>,
    user2: Seq<char>,
    share_b: int,
)
    requires
        key1 == key2,
        user1 == user2,
        share_a == share_b,
    ensures
        rollout_spec(key1, user1, share_a) == rollout_spec(key2, user2, share_b),
{
}

/// Rollout is monotone in the share: a user admitted at `low` is admitted at
/// every `high >= low`.
pub proof fn rollout_monotone(key: Seq<char>, user: Seq<char>, low: int, high: int)
    requires
        low <= high,
        rollout_spec(key, user, low),
    ensures
        rollout_spec(key, user, high),
{
    assert(low * 0x1_0000_0000 <= high * 0x1_0000_0000) by (nonlinear_arith)
        requires
            low <= high,
    ;
}

} // verus!
