//! Binding for the point-to-point LoRa link.
//!
//! A human-readable *binding phrase* is hashed into a 6-byte [`Binding::uid`], from which a 2-byte
//! [`Binding::link_id`] prefix and a 16-bit [`Binding::crc_init`] CRC initializer are derived. The wire framing
//! wraps a payload as `[link_id:2][payload][crc16:2]`, and [`deframe`] accepts a frame only if the link-id matches
//! *and* the UID-seeded CRC checks out, so a node silently drops any frame from a differently bound pair.
//!
//! The phrase is for **anti-collision, not security**: the hash is just a stable, well-mixed map from phrase to UID.

use vstd::prelude::*;
use vstd::slice::slice_subrange;
use vstd::string::*;

use crate::buffer::ByteBuf;

verus! {

/// The per-link identity derived from a binding phrase. `uid` is the 6-byte root; `link_id` is the fast-reject
/// 2-byte frame prefix; `crc_init` seeds the frame CRC so that two phrases yield different CRCs over identical
/// bytes.
#[derive(Clone, Copy, PartialEq, Eq, Debug)]
pub struct Binding {
    pub uid: [u8; 6],
    pub link_id: [u8; 2],
    pub crc_init: u16,
}

/// Bytes that [`frame`] adds around a payload: the 2-byte link-id prefix plus the trailing 2-byte CRC16.
pub const FRAME_OVERHEAD: usize = 4;

/// The 64-bit FNV-1a offset basis.
pub const FNV_OFFSET_BASIS: u64 = 0xcbf2_9ce4_8422_2325;

/// The 64-bit FNV-1a prime.
pub const FNV_PRIME: u64 = 0x0000_0100_0000_01b3;

/// What sets the seed of the second hash apart from the first, so that the two halves of a UID are independent.
pub const SECOND_SEED_MASK: u64 = 0x00ff_00ff_00ff_00ff;

/// A product modulo 2^64.
pub open spec fn mul64(a: u64, b: u64) -> u64 {
    ((a * b) % 0x1_0000_0000_0000_0000) as u64
}

/// The FNV-1a hash of `bytes` from a given seed.
pub open spec fn fnv_hash(bytes: Seq<u8>, seed: u64) -> u64
    decreases bytes.len(),
{
    if bytes.len() == 0 {
        seed
    } else {
        mul64(fnv_hash(bytes.drop_last(), seed) ^ (bytes.last() as u64), FNV_PRIME)
    }
}

/// FNV-1a hash of `bytes` from a given seed.
pub fn fnv1a(bytes: &[u8], seed: u64) -> (hash: u64)
    ensures
        hash == fnv_hash(bytes@, seed),
{
    let mut hash: u64 = seed;
    let mut i: usize = 0;
    while i < bytes.len()
        invariant
            i <= bytes@.len(),
            hash == fnv_hash(bytes@.take(i as int), seed),
        decreases bytes@.len() - i,
    {
        proof {
            assert(bytes@.take(i + 1).drop_last() =~= bytes@.take(i as int));
        }
        hash = hash ^ (bytes[i] as u64);
        hash = hash.wrapping_mul(FNV_PRIME);
        i += 1;
    }
    proof {
        assert(bytes@.take(i as int) =~= bytes@);
    }
    hash
}

/// The murmur3 64-bit avalanche finalizer.
pub open spec fn avalanche(h: u64) -> u64 {
    let a = mul64(h ^ (h >> 33), 0xff51_afd7_ed55_8ccd);
    let b = mul64(a ^ (a >> 33), 0xc4ce_b9fe_1a85_ec53);
    b ^ (b >> 33)
}

/// murmur3 `fmix64` avalanche finalizer. FNV-1a alone barely changes its *high* bytes when only the phrase's last
/// byte differs; after this a one-bit input change flips about half the output bits.
pub fn fmix64(h: u64) -> (mixed: u64)
    ensures
        mixed == avalanche(h),
{
    let a = (h ^ (h >> 33)).wrapping_mul(0xff51_afd7_ed55_8ccd);
    let b = (a ^ (a >> 33)).wrapping_mul(0xc4ce_b9fe_1a85_ec53);
    b ^ (b >> 33)
}

/// The UID of a phrase: the low three bytes of each of two avalanched FNV-1a hashes with different seeds.
pub open spec fn uid_of(phrase: Seq<u8>) -> Seq<u8> {
    let h0 = avalanche(fnv_hash(phrase, FNV_OFFSET_BASIS));
    let h1 = avalanche(fnv_hash(phrase, FNV_OFFSET_BASIS ^ SECOND_SEED_MASK));
    seq![h0 as u8, (h0 >> 8) as u8, (h0 >> 16) as u8, h1 as u8, (h1 >> 8) as u8, (h1 >> 16) as u8]
}

/// Derives the [`Binding`] for a phrase. `link_id` is the first two UID bytes, a cheap prefix to reject foreign
/// frames before the CRC walk; `crc_init` is the last two UID bytes, so that even two phrases that collided on
/// `link_id` would still produce mismatching CRCs over the same payload.
pub fn derive(phrase: &str) -> (binding: Binding)
    ensures
        binding.uid@ == uid_of(phrase.spec_bytes()),
        binding.link_id@ == binding.uid@.take(2),
        binding.crc_init == binding.uid@[4] * 256 + binding.uid@[5],
{
    let bytes = phrase.as_bytes();
    let h0 = fmix64(fnv1a(bytes, FNV_OFFSET_BASIS));
    let h1 = fmix64(fnv1a(bytes, FNV_OFFSET_BASIS ^ SECOND_SEED_MASK));
    let uid: [u8; 6] = [
        #[verifier::truncate] (h0 as u8),
        #[verifier::truncate] ((h0 >> 8) as u8),
        #[verifier::truncate] ((h0 >> 16) as u8),
        #[verifier::truncate] (h1 as u8),
        #[verifier::truncate] ((h1 >> 8) as u8),
        #[verifier::truncate] ((h1 >> 16) as u8),
    ];
    let link_id: [u8; 2] = [uid[0], uid[1]];
    let crc_init: u16 = uid[4] as u16 * 256 + uid[5] as u16;
    proof {
        assert(uid@ =~= uid_of(phrase.spec_bytes()));
        assert(link_id@ =~= uid@.take(2));
    }
    Binding { uid, link_id, crc_init }
}

/// One step of the CRC register for polynomial 0x1021: shift out the top bit and subtract the polynomial if it
/// was set.
pub open spec fn crc_shift(crc: u16) -> u16 {
    if crc & 0x8000 != 0 {
        (crc << 1) ^ 0x1021
    } else {
        crc << 1
    }
}

/// The CRC register after `n` steps.
pub open spec fn crc_shifts(crc: u16, n: nat) -> u16
    decreases n,
{
    if n == 0 {
        crc
    } else {
        crc_shift(crc_shifts(crc, (n - 1) as nat))
    }
}

/// The CRC register after taking in one byte.
pub open spec fn crc_byte(crc: u16, byte: u8) -> u16 {
    crc_shifts(crc ^ ((byte as u16) << 8), 8)
}

/// The CRC-16/CCITT of `data` from the initial register `init`.
pub open spec fn crc_of(init: u16, data: Seq<u8>) -> u16
    decreases data.len(),
{
    if data.len() == 0 {
        init
    } else {
        crc_byte(crc_of(init, data.drop_last()), data.last())
    }
}

/// CRC-16/CCITT (polynomial 0x1021) over `data`, starting from `crc_init`.
pub fn crc16(crc_init: u16, data: &[u8]) -> (crc: u16)
    ensures
        crc == crc_of(crc_init, data@),
{
    let mut crc: u16 = crc_init;
    let mut i: usize = 0;
    while i < data.len()
        invariant
            i <= data@.len(),
            crc == crc_of(crc_init, data@.take(i as int)),
        decreases data@.len() - i,
    {
        proof {
            assert(data@.take(i + 1).drop_last() =~= data@.take(i as int));
        }
        crc = crc ^ ((data[i] as u16) << 8);
        let ghost start = crc;
        let mut bit: u8 = 0;
        while bit < 8
            invariant
                bit <= 8,
                crc == crc_shifts(start, bit as nat),
            decreases 8 - bit,
        {
            crc = if crc & 0x8000 != 0 {
                (crc << 1) ^ 0x1021
            } else {
                crc << 1
            };
            bit += 1;
        }
        i += 1;
    }
    proof {
        assert(data@.take(i as int) =~= data@);
    }
    crc
}

/// A 16-bit number as two bytes, the high one first.
pub open spec fn be_bytes(v: u16) -> Seq<u8> {
    seq![(v / 256) as u8, (v % 256) as u8]
}

/// The frame of a payload: link-id, payload, and the CRC over both.
pub open spec fn framed(link_id: Seq<u8>, crc_init: u16, payload: Seq<u8>) -> Seq<u8> {
    link_id + payload + be_bytes(crc_of(crc_init, link_id + payload))
}

/// What is left in a buffer that cannot hold a whole frame: as many of its parts, in order, as fitted whole.
pub open spec fn partial_frame(link_id: Seq<u8>, payload: Seq<u8>, capacity: nat) -> Seq<u8> {
    if capacity < link_id.len() {
        Seq::empty()
    } else if capacity < link_id.len() + payload.len() {
        link_id
    } else {
        link_id + payload
    }
}

/// Whether bytes are a frame for this link: long enough, with the link-id in front and the CRC of everything
/// before it at the end.
pub open spec fn is_frame(link_id: Seq<u8>, crc_init: u16, bytes: Seq<u8>) -> bool {
    let n = bytes.len();
    &&& n >= FRAME_OVERHEAD
    &&& bytes.take(2) == link_id
    &&& bytes.skip(n - 2) == be_bytes(crc_of(crc_init, bytes.take(n - 2)))
}

/// Wraps `payload` into `out` as `[link_id:2][payload][crc16:2]`, where the CRC covers the link-id *and* payload (so
/// that a flipped id byte also fails the CRC). Clears `out` first. Returns `Err(())` exactly when the capacity of
/// `out` cannot hold `payload.len() + FRAME_OVERHEAD` bytes; `out` then holds as many of the three parts, in order,
/// as fitted whole.
pub fn frame(binding: &Binding, payload: &[u8], out: &mut ByteBuf) -> (done: Result<(), ()>)
    ensures
        final(out).spec_capacity() == old(out).spec_capacity(),
        done is Ok <==> payload@.len() + FRAME_OVERHEAD <= old(out).spec_capacity(),
        done is Ok ==> final(out)@ == framed(binding.link_id@, binding.crc_init, payload@),
        done is Err ==> final(out)@ == partial_frame(binding.link_id@, payload@, old(out).spec_capacity()),
{
    out.clear();
    let link_id: &[u8] = binding.link_id.as_slice();
    if out.extend_from_slice(link_id).is_err() {
        return Err(());
    }
    proof {
        assert(out@ =~= binding.link_id@);
    }
    if out.extend_from_slice(payload).is_err() {
        return Err(());
    }
    let crc = crc16(binding.crc_init, out.as_slice());
    let tail: [u8; 2] = [(crc / 256) as u8, (crc % 256) as u8];
    proof {
        assert(tail@ =~= be_bytes(crc));
    }
    out.extend_from_slice(tail.as_slice())
}

/// Validates a received frame and returns the inner payload, or `None` if it is too short, the link-id prefix does
/// not match, or the UID-seeded CRC fails, i.e. the frame belongs to a different pair or is corrupt. The link-id
/// check is a cheap reject before the CRC walk.
pub fn deframe<'a>(binding: &Binding, frame: &'a [u8]) -> (r: Option<&'a [u8]>)
    ensures
        r is Some <==> is_frame(binding.link_id@, binding.crc_init, frame@),
        r matches Some(payload) ==> payload@ == frame@.subrange(2, frame@.len() - 2),
{
    if frame.len() < FRAME_OVERHEAD {
        return None;
    }
    let (body, crc_bytes) = frame.split_at(frame.len() - 2);
    proof {
        assert(body@ =~= frame@.take(frame@.len() - 2));
        assert(crc_bytes@ =~= frame@.skip(frame@.len() - 2));
        assert(frame@.take(2)[0] == body@[0] && frame@.take(2)[1] == body@[1]);
    }
    if body[0] != binding.link_id[0] || body[1] != binding.link_id[1] {
        return None;
    }
    proof {
        assert(frame@.take(2) =~= binding.link_id@);
    }
    let want: u16 = crc_bytes[0] as u16 * 256 + crc_bytes[1] as u16;
    let crc = crc16(binding.crc_init, body);
    proof {
        let tail = be_bytes(crc);
        assert(tail[0] == crc / 256 && tail[1] == crc % 256);
        if crc == want {
            assert(crc_bytes@ =~= tail);
        } else {
            assert(crc_bytes@[0] != tail[0] || crc_bytes@[1] != tail[1]);
        }
    }
    if crc != want {
        return None;
    }
    let payload = slice_subrange(body, 2, body.len());
    proof {
        assert(payload@ =~= frame@.subrange(2, frame@.len() - 2));
    }
    Some(payload)
}

// ---------------------------------------------------------------------------------------------------------------
// Laws
// ---------------------------------------------------------------------------------------------------------------

/// Different registers stay different however many steps they take: the polynomial's low bit is set, so no step
/// loses anything.
proof fn lemma_shifts_injective(a: u16, b: u16, n: nat)
    requires
        a != b,
    ensures
        crc_shifts(a, n) != crc_shifts(b, n),
    decreases n,
{
    if n > 0 {
        lemma_shifts_injective(a, b, (n - 1) as nat);
        let x = crc_shifts(a, (n - 1) as nat);
        let y = crc_shifts(b, (n - 1) as nat);
        assert(crc_shift(x) != crc_shift(y)) by (bit_vector)
            requires
                x != y,
        ;
    }
}

proof fn lemma_byte_injective(a: u16, b: u16, byte: u8)
    requires
        a != b,
    ensures
        crc_byte(a, byte) != crc_byte(b, byte),
{
    assert(a ^ ((byte as u16) << 8) != b ^ ((byte as u16) << 8)) by (bit_vector)
        requires
            a != b,
    ;
    lemma_shifts_injective(a ^ ((byte as u16) << 8), b ^ ((byte as u16) << 8), 8);
}

/// Two initial registers give different CRCs over the same bytes, whatever the bytes.
pub proof fn law_crc_init_addresses_the_link(a: u16, b: u16, data: Seq<u8>)
    requires
        a != b,
    ensures
        crc_of(a, data) != crc_of(b, data),
    decreases data.len(),
{
    if data.len() > 0 {
        law_crc_init_addresses_the_link(a, b, data.drop_last());
        lemma_byte_injective(crc_of(a, data.drop_last()), crc_of(b, data.drop_last()), data.last());
    }
}

/// Changing any one byte changes the CRC.
pub proof fn law_crc_sees_every_byte(init: u16, data: Seq<u8>, at: int, byte: u8)
    requires
        0 <= at < data.len(),
        byte != data[at],
    ensures
        crc_of(init, data.update(at, byte)) != crc_of(init, data),
    decreases data.len(),
{
    let changed = data.update(at, byte);
    let last = data.last();
    if at == data.len() - 1 {
        assert(changed.drop_last() =~= data.drop_last());
        let crc = crc_of(init, data.drop_last());
        assert(crc ^ ((byte as u16) << 8) != crc ^ ((last as u16) << 8)) by (bit_vector)
            requires
                byte != last,
        ;
        lemma_shifts_injective(crc ^ ((byte as u16) << 8), crc ^ ((last as u16) << 8), 8);
    } else {
        law_crc_sees_every_byte(init, data.drop_last(), at, byte);
        assert(changed.drop_last() =~= data.drop_last().update(at, byte));
        lemma_byte_injective(crc_of(init, changed.drop_last()), crc_of(init, data.drop_last()), last);
    }
}

proof fn lemma_be_bytes_injective(a: u16, b: u16)
    requires
        be_bytes(a) == be_bytes(b),
    ensures
        a == b,
{
    assert(be_bytes(a)[0] == be_bytes(b)[0]);
    assert(be_bytes(a)[1] == be_bytes(b)[1]);
}

proof fn lemma_framed_parts(link_id: Seq<u8>, crc_init: u16, payload: Seq<u8>)
    requires
        link_id.len() == 2,
    ensures
        ({
            let bytes = framed(link_id, crc_init, payload);
            &&& bytes.len() == payload.len() + FRAME_OVERHEAD
            &&& bytes.take(2) == link_id
            &&& bytes.take(bytes.len() - 2) == link_id + payload
            &&& bytes.skip(bytes.len() - 2) == be_bytes(crc_of(crc_init, link_id + payload))
            &&& bytes.subrange(2, bytes.len() - 2) == payload
        }),
{
    let bytes = framed(link_id, crc_init, payload);
    assert(bytes.take(2) =~= link_id);
    assert(bytes.take(bytes.len() - 2) =~= link_id + payload);
    assert(bytes.skip(bytes.len() - 2) =~= be_bytes(crc_of(crc_init, link_id + payload)));
    assert(bytes.subrange(2, bytes.len() - 2) =~= payload);
}

/// What one end frames the other end of the same pair gets back, and a frame is the payload plus
/// [`FRAME_OVERHEAD`] bytes, so an empty payload still makes a frame.
pub proof fn law_frames_round_trip(link_id: Seq<u8>, crc_init: u16, payload: Seq<u8>)
    requires
        link_id.len() == 2,
    ensures
        ({
            let bytes = framed(link_id, crc_init, payload);
            &&& bytes.len() == payload.len() + FRAME_OVERHEAD
            &&& is_frame(link_id, crc_init, bytes)
            &&& bytes.subrange(2, bytes.len() - 2) == payload
        }),
{
    lemma_framed_parts(link_id, crc_init, payload);
}

/// A frame is accepted by a pair with the same link-id and the same CRC initializer, and by no other: a difference
/// in either is enough to drop it.
pub proof fn law_foreign_frames_are_dropped(
    link_id: Seq<u8>,
    crc_init: u16,
    other_id: Seq<u8>,
    other_init: u16,
    payload: Seq<u8>,
)
    requires
        link_id.len() == 2,
        other_id.len() == 2,
    ensures
        is_frame(other_id, other_init, framed(link_id, crc_init, payload)) <==> other_id == link_id && other_init
            == crc_init,
{
    lemma_framed_parts(link_id, crc_init, payload);
    if other_init != crc_init {
        law_crc_init_addresses_the_link(other_init, crc_init, link_id + payload);
        if is_frame(other_id, other_init, framed(link_id, crc_init, payload)) {
            lemma_be_bytes_injective(crc_of(other_init, link_id + payload), crc_of(crc_init, link_id + payload));
        }
    }
}

/// A frame with any one byte damaged, in the link-id, the payload or the CRC, is dropped.
pub proof fn law_damaged_frames_are_dropped(link_id: Seq<u8>, crc_init: u16, payload: Seq<u8>, at: int, byte: u8)
    requires
        link_id.len() == 2,
        0 <= at < payload.len() + FRAME_OVERHEAD,
        byte != framed(link_id, crc_init, payload)[at],
    ensures
        !is_frame(link_id, crc_init, framed(link_id, crc_init, payload).update(at, byte)),
{
    let good = framed(link_id, crc_init, payload);
    let bad = good.update(at, byte);
    let n = good.len() - 2;
    lemma_framed_parts(link_id, crc_init, payload);
    if is_frame(link_id, crc_init, bad) {
        if at < n {
            assert(bad.take(n) =~= good.take(n).update(at, byte));
            assert(bad.skip(n) =~= good.skip(n));
            law_crc_sees_every_byte(crc_init, good.take(n), at, byte);
            lemma_be_bytes_injective(crc_of(crc_init, bad.take(n)), crc_of(crc_init, good.take(n)));
        } else {
            assert(bad.take(n) =~= good.take(n));
            assert(bad.skip(n)[at - n] == byte);
            assert(good.skip(n)[at - n] == good[at]);
        }
    }
}

/// What undoes a multiplication by the FNV prime, modulo 2^64.
pub const FNV_PRIME_INVERSE: u64 = 0xce96_5057_aff6_957b;

proof fn lemma_mul_undone(x: u64, p: u64, q: u64, k: nat)
    requires
        p * q == k * 0x1_0000_0000_0000_0000 + 1,
    ensures
        mul64(mul64(x, p), q) == x,
{
    let m: int = 0x1_0000_0000_0000_0000;
    vstd::arithmetic::div_mod::lemma_mul_mod_noop_left(x * p, q as int, m);
    assert((x * p) * q == (k * x) * m + x) by (nonlinear_arith)
        requires
            p * q == k * m + 1,
    ;
    vstd::arithmetic::div_mod::lemma_mod_multiples_vanish((k * x) as int, x as int, m);
    vstd::arithmetic::div_mod::lemma_small_mod(x as nat, m as nat);
    vstd::arithmetic::mul::lemma_mul_is_commutative((k * x) as int, m);
}

proof fn lemma_prime_undone(x: u64)
    ensures
        mul64(mul64(x, FNV_PRIME), FNV_PRIME_INVERSE) == x,
        mul64(mul64(x, FNV_PRIME_INVERSE), FNV_PRIME) == x,
{
    assert(0x0000_0100_0000_01b3 * 0xce96_5057_aff6_957b == 887285111055 * 0x1_0000_0000_0000_0000 + 1);
    lemma_mul_undone(x, FNV_PRIME, FNV_PRIME_INVERSE, 887285111055);
    lemma_mul_undone(x, FNV_PRIME_INVERSE, FNV_PRIME, 887285111055);
}

/// The seed that a hash of `bytes` was started from: each byte is taken out again, the last one first.
pub open spec fn fnv_seed(hash: u64, bytes: Seq<u8>) -> u64
    decreases bytes.len(),
{
    if bytes.len() == 0 {
        hash
    } else {
        fnv_seed(mul64(hash, 0xce96_5057_aff6_957b) ^ (bytes.last() as u64), bytes.drop_last())
    }
}

/// The hash runs backward: from it and all the bytes, and from no other hash, the seed comes back.
pub proof fn law_hash_runs_backward(bytes: Seq<u8>, seed: u64, hash: u64)
    ensures
        fnv_seed(fnv_hash(bytes, seed), bytes) == seed,
        fnv_seed(hash, bytes) == seed <==> hash == fnv_hash(bytes, seed),
    decreases bytes.len(),
{
    if bytes.len() > 0 {
        let b = bytes.last() as u64;
        let before = fnv_hash(bytes.drop_last(), seed);
        let x = before ^ b;
        lemma_prime_undone(x);
        assert((before ^ b) ^ b == before) by (bit_vector);
        law_hash_runs_backward(bytes.drop_last(), seed, before);
        let y = mul64(hash, FNV_PRIME_INVERSE);
        law_hash_runs_backward(bytes.drop_last(), seed, y ^ b);
        if fnv_seed(hash, bytes) == seed {
            assert(y ^ b == before);
            assert(y == (y ^ b) ^ b) by (bit_vector);
            lemma_prime_undone(hash);
        }
    }
}

/// What the avalanche made `mixed` of.
pub open spec fn unmixed(mixed: u64) -> u64 {
    let b = mul64(mixed ^ (mixed >> 33), 0x9cb4_b2f8_1293_37db);
    let a = mul64(b ^ (b >> 33), 0x4f74_430c_22a5_4005);
    a ^ (a >> 33)
}

/// The avalanche loses nothing: it can be undone, so different hashes stay different.
pub proof fn law_avalanche_can_be_undone(h: u64, mixed: u64)
    ensures
        unmixed(avalanche(h)) == h,
        unmixed(mixed) == h <==> mixed == avalanche(h),
{
    assert(0xff51_afd7_ed55_8ccd * 0x4f74_430c_22a5_4005 == 5710046619856821070 * 0x1_0000_0000_0000_0000 + 1);
    assert(0xc4ce_b9fe_1a85_ec53 * 0x9cb4_b2f8_1293_37db == 8680939279959119233 * 0x1_0000_0000_0000_0000 + 1);
    lemma_shift_undone(h);
    let x = h ^ (h >> 33);
    lemma_mul_undone(x, 0xff51_afd7_ed55_8ccd, 0x4f74_430c_22a5_4005, 5710046619856821070);
    let a = mul64(x, 0xff51_afd7_ed55_8ccd);
    lemma_shift_undone(a);
    let y = a ^ (a >> 33);
    lemma_mul_undone(y, 0xc4ce_b9fe_1a85_ec53, 0x9cb4_b2f8_1293_37db, 8680939279959119233);
    let b = mul64(y, 0xc4ce_b9fe_1a85_ec53);
    lemma_shift_undone(b);

    let u = mixed ^ (mixed >> 33);
    lemma_shift_undone(mixed);
    let v = mul64(u, 0x9cb4_b2f8_1293_37db);
    lemma_mul_undone(u, 0x9cb4_b2f8_1293_37db, 0xc4ce_b9fe_1a85_ec53, 8680939279959119233);
    lemma_shift_undone(v);
    let w = v ^ (v >> 33);
    let z = mul64(w, 0x4f74_430c_22a5_4005);
    lemma_mul_undone(w, 0x4f74_430c_22a5_4005, 0xff51_afd7_ed55_8ccd, 5710046619856821070);
    lemma_shift_undone(z);
    assert(avalanche(unmixed(mixed)) == mixed);
}

proof fn lemma_shift_undone(x: u64)
    ensures
        (x ^ (x >> 33)) ^ ((x ^ (x >> 33)) >> 33) == x,
{
    assert((x ^ (x >> 33)) ^ ((x ^ (x >> 33)) >> 33) == x) by (bit_vector);
}

/// The UID is cut from two hashes of the whole phrase: the low three bytes of each, where a hash is the one number that,
/// run backward over every byte of the phrase, gives the seed of its half.
pub proof fn law_uid_is_cut_from_the_whole_phrase(phrase: Seq<u8>, h0: u64, h1: u64)
    requires
        fnv_seed(unmixed(h0), phrase) == 0xcbf2_9ce4_8422_2325,
        fnv_seed(unmixed(h1), phrase) == 0xcb0d_9c1b_84dd_23da,
    ensures
        uid_of(phrase).len() == 6,
        uid_of(phrase)[0] == h0 % 256,
        uid_of(phrase)[1] == h0 / 256 % 256,
        uid_of(phrase)[2] == h0 / 65_536 % 256,
        uid_of(phrase)[3] == h1 % 256,
        uid_of(phrase)[4] == h1 / 256 % 256,
        uid_of(phrase)[5] == h1 / 65_536 % 256,
{
    assert(0xcbf2_9ce4_8422_2325u64 ^ 0x00ff_00ff_00ff_00ffu64 == 0xcb0d_9c1b_84dd_23dau64) by (bit_vector);
    law_hash_runs_backward(phrase, 0xcbf2_9ce4_8422_2325, unmixed(h0));
    law_hash_runs_backward(phrase, 0xcb0d_9c1b_84dd_23da, unmixed(h1));
    law_avalanche_can_be_undone(unmixed(h0), h0);
    law_avalanche_can_be_undone(unmixed(h1), h1);
    lemma_low_bytes(h0);
    lemma_low_bytes(h1);
}

proof fn lemma_low_bytes(h: u64)
    ensures
        h as u8 == h % 256,
        (h >> 8) as u8 == h / 256 % 256,
        (h >> 16) as u8 == h / 65_536 % 256,
{
    assert(h as u8 == h % 256) by (bit_vector);
    assert((h >> 8) as u8 == h / 256 % 256) by (bit_vector);
    assert((h >> 16) as u8 == h / 65_536 % 256) by (bit_vector);
}

/// There are such hashes for every phrase, and every byte of it counts: changing one, wherever it stands, changes both.
pub proof fn law_every_byte_reaches_the_identity(phrase: Seq<u8>, at: int, byte: u8, seed: u64, h: u64, changed: u64)
    requires
        0 <= at < phrase.len(),
        byte != phrase[at],
        fnv_seed(unmixed(h), phrase) == seed,
        fnv_seed(unmixed(changed), phrase.update(at, byte)) == seed,
    ensures
        h != changed,
        h == avalanche(fnv_hash(phrase, seed)),
{
    law_hash_runs_backward(phrase, seed, unmixed(h));
    law_hash_runs_backward(phrase.update(at, byte), seed, unmixed(changed));
    law_avalanche_can_be_undone(unmixed(h), h);
    law_avalanche_can_be_undone(unmixed(changed), changed);
    lemma_hash_sees_every_byte(phrase, at, byte, seed);
}

proof fn lemma_hash_sees_every_byte(phrase: Seq<u8>, at: int, byte: u8, seed: u64)
    requires
        0 <= at < phrase.len(),
        byte != phrase[at],
    ensures
        fnv_hash(phrase.update(at, byte), seed) != fnv_hash(phrase, seed),
    decreases phrase.len(),
{
    let other = phrase.update(at, byte);
    let b = phrase.last() as u64;
    let c = other.last() as u64;
    let x = fnv_hash(phrase.drop_last(), seed);
    let y = fnv_hash(other.drop_last(), seed);
    if at == phrase.len() - 1 {
        assert(other.drop_last() =~= phrase.drop_last());
        assert(x ^ b != x ^ c) by (bit_vector)
            requires
                b != c,
        ;
    } else {
        lemma_hash_sees_every_byte(phrase.drop_last(), at, byte, seed);
        assert(other.drop_last() =~= phrase.drop_last().update(at, byte));
        assert(x ^ b != y ^ b) by (bit_vector)
            requires
                x != y,
        ;
    }
    lemma_prime_undone(x ^ b);
    lemma_prime_undone(y ^ c);
}

/// The register before a step.
pub open spec fn crc_unshift(crc: u16) -> u16 {
    if crc & 1 != 0 {
        ((crc ^ 0x1021) >> 1) | 0x8000
    } else {
        crc >> 1
    }
}

/// The register before `n` steps.
pub open spec fn crc_unshifts(crc: u16, n: nat) -> u16
    decreases n,
{
    if n == 0 {
        crc
    } else {
        crc_unshifts(crc_unshift(crc), (n - 1) as nat)
    }
}

/// The register that a CRC of `data` was started from: each byte is taken out again, the last one first.
pub open spec fn crc_start(crc: u16, data: Seq<u8>) -> u16
    decreases data.len(),
{
    if data.len() == 0 {
        crc
    } else {
        crc_start(crc_unshifts(crc, 8) ^ ((data.last() as u16) << 8), data.drop_last())
    }
}

/// The CRC runs backward: dividing the polynomial out again, eight steps per byte over all of the data, gives the initial
/// register back.
pub proof fn law_crc_runs_backward(init: u16, data: Seq<u8>)
    ensures
        crc_start(crc_of(init, data), data) == init,
    decreases data.len(),
{
    if data.len() > 0 {
        let before = crc_of(init, data.drop_last());
        let b = (data.last() as u16) << 8;
        lemma_unshifts(before ^ b, 8);
        assert((before ^ b) ^ b == before) by (bit_vector);
        law_crc_runs_backward(init, data.drop_last());
    }
}

proof fn lemma_unshifts(crc: u16, n: nat)
    ensures
        crc_unshifts(crc_shifts(crc, n), n) == crc,
    decreases n,
{
    if n > 0 {
        let c = crc_shifts(crc, (n - 1) as nat);
        assert(crc_unshift(crc_shift(c)) == c) by (bit_vector);
        lemma_unshifts(crc, (n - 1) as nat);
    }
}

/// A frame is its link-id, its payload and two bytes that hold the CRC of both, the high one first; nothing else.
pub proof fn law_frame_layout(link_id: Seq<u8>, crc_init: u16, payload: Seq<u8>, i: int)
    requires
        link_id.len() == 2,
        0 <= i < payload.len(),
    ensures
        ({
            let bytes = framed(link_id, crc_init, payload);
            let n = payload.len() as int;
            &&& bytes.len() == n + 4
            &&& bytes[0] == link_id[0] && bytes[1] == link_id[1]
            &&& bytes[2 + i] == payload[i]
            &&& bytes[n + 2] * 256 + bytes[n + 3] == crc_of(crc_init, link_id + payload)
        }),
{
    let crc = crc_of(crc_init, link_id + payload);
    assert(be_bytes(crc)[0] == crc / 256 && be_bytes(crc)[1] == crc % 256);
}

/// What is accepted is what was framed: a received frame passes exactly where it is the frame of the payload it carries.
pub proof fn law_accepted_frames_were_framed(link_id: Seq<u8>, crc_init: u16, bytes: Seq<u8>)
    requires
        link_id.len() == 2,
    ensures
        is_frame(link_id, crc_init, bytes) <==> bytes.len() >= 4 && bytes == framed(
            link_id,
            crc_init,
            bytes.subrange(2, bytes.len() - 2),
        ),
{
    let n = bytes.len() as int;
    if n >= 4 {
        let payload = bytes.subrange(2, n - 2);
        if is_frame(link_id, crc_init, bytes) {
            assert(bytes.take(2) + payload =~= bytes.take(n - 2));
            assert(bytes =~= bytes.take(n - 2) + bytes.skip(n - 2));
        }
        if bytes == framed(link_id, crc_init, payload) {
            law_frames_round_trip(link_id, crc_init, payload);
        }
    }
}

/// What a buffer too small for a frame is left with starts the frame, fits, and ends where a part of the frame does: before
/// the link-id, behind it, or behind the payload, as far as there was room.
pub proof fn law_partial_frames_start_the_frame(link_id: Seq<u8>, crc_init: u16, payload: Seq<u8>, capacity: nat)
    requires
        link_id.len() == 2,
        capacity < payload.len() + 4,
    ensures
        ({
            let left = partial_frame(link_id, payload, capacity);
            &&& left.len() <= capacity
            &&& left == framed(link_id, crc_init, payload).take(left.len() as int)
            &&& capacity < 2 ==> left.len() == 0
            &&& 2 <= capacity < 2 + payload.len() ==> left.len() == 2
            &&& capacity >= 2 + payload.len() ==> left.len() == 2 + payload.len()
        }),
{
    let left = partial_frame(link_id, payload, capacity);
    assert(left =~= framed(link_id, crc_init, payload).take(left.len() as int));
}

} // verus!
