//! Interface access codes.
//!
//! An interface with a network name or a passphrase only takes traffic from peers that share
//! them. Each packet on the wire carries a truncated signature over the plain packet behind its
//! two header bytes, and everything but that code is masked with a stream derived from it.

use vstd::prelude::*;
use vstd::string::*;

use crate::bytes;
use crate::hash;
use crate::signature::{ed25519_signature, sign};

verus! {

/// Salt of the access key derivation.
pub const IFAC_SALT: [u8; 32] = [
    0xad, 0xf5, 0x4d, 0x88, 0x2c, 0x9a, 0x9b, 0x80, 0x77, 0x1e, 0xb4, 0x99, 0x5d, 0x70, 0x2d, 0x4a,
    0x3e, 0x73, 0x33, 0x91, 0xb2, 0xa0, 0xf5, 0x3f, 0x41, 0x6d, 0x9f, 0x90, 0x7e, 0x55, 0xcf, 0xf8,
];

/// Length of the shortest access code.
pub const IFAC_MIN_SIZE: usize = 1;

/// Length of the access code where none is configured.
pub const DEFAULT_IFAC_SIZE: usize = 2;

/// Length of a signature, and so of the longest access code.
pub const SIGNATURE_SIZE: usize = 64;

/// The longest stream that the key derivation puts out: 255 blocks of 32 bytes.
pub const MAX_STREAM: usize = 8160;

/// The first `length` bytes of the HKDF-SHA256 stream of an input key and a salt, with an empty
/// context.
pub uninterp spec fn hkdf_sha256(input: Seq<u8>, salt: Seq<u8>, length: nat) -> Seq<u8>;

/// Derives `length` bytes with `hkdf::Hkdf::<Sha256>`: extraction from `derive_from` and `salt`,
/// expansion with an empty context. Expansion fails beyond 255 blocks of the hash, so longer
/// streams are not asked for.
#[verifier::external_body]
fn hkdf(derive_from: &[u8], salt: &[u8], length: usize) -> (r: Vec<u8>)
    requires
        length <= MAX_STREAM,
    ensures
        r@ == hkdf_sha256(derive_from@, salt@, length as nat),
        r@.len() == length,
{
    let mut okm = vec![0u8; length];
    hkdf::Hkdf::<sha2::Sha256>::new(Some(salt), derive_from)
        .expand(&[], &mut okm)
        .expect("a length within the limit");
    okm
}

/// The hash of a text, or nothing.
pub open spec fn hash_part(text: Option<&str>) -> Seq<u8> {
    match text {
        Some(text) => hash::sha256_digest(text.spec_bytes()),
        None => Seq::empty(),
    }
}

/// The access key of a network name and a passphrase.
pub open spec fn access_key(netname: Option<&str>, netkey: Option<&str>) -> Seq<u8> {
    hkdf_sha256(
        hash::sha256_digest(hash_part(netname) + hash_part(netkey)),
        IFAC_SALT@,
        SIGNATURE_SIZE as nat,
    )
}

/// The access code of a plain packet: the end of its signature under the second half of the key.
pub open spec fn code_for(key: Seq<u8>, size: nat, raw: Seq<u8>) -> Seq<u8> {
    let signature = ed25519_signature(key.subrange(32, 64), raw);
    Seq::new(size, |i: int| signature[SIGNATURE_SIZE - size + i])
}

/// A plain packet with its access code behind the two header bytes, and the flag set.
pub open spec fn with_code(raw: Seq<u8>, code: Seq<u8>) -> Seq<u8> {
    seq![raw[0] | 0x80, raw[1]] + code + raw.skip(2)
}

/// Whether the byte at `i` is covered by the mask.
pub open spec fn is_masked(size: nat, i: int) -> bool {
    i <= 1 || i > size + 1
}

/// A packet with the mask laid over all but the access code, and the flag kept.
pub open spec fn masked(packet: Seq<u8>, mask: Seq<u8>, size: nat) -> Seq<u8> {
    Seq::new(
        packet.len(),
        |i: int|
            if i == 0 {
                (packet[i] ^ mask[i]) | 0x80
            } else if is_masked(size, i) {
                packet[i] ^ mask[i]
            } else {
                packet[i]
            },
    )
}

/// A plain packet as it goes on the wire.
pub open spec fn wrapped(key: Seq<u8>, size: nat, raw: Seq<u8>) -> Seq<u8> {
    let code = code_for(key, size, raw);
    masked(with_code(raw, code), hkdf_sha256(code, key, raw.len() + size), size)
}

/// Whether wire bytes carry a flag, an access code and something behind it.
pub open spec fn carries_code(size: nat, raw: Seq<u8>) -> bool {
    &&& raw.len() > 0
    &&& raw[0] & 0x80 != 0
    &&& raw.len() > 2 + size
}

/// Wire bytes without mask, access code and flag.
pub open spec fn uncovered(key: Seq<u8>, size: nat, raw: Seq<u8>) -> Seq<u8> {
    let mask = hkdf_sha256(raw.subrange(2, 2 + size as int), key, raw.len());
    Seq::new(
        (raw.len() - size) as nat,
        |i: int|
            if i == 0 {
                (raw[0] ^ mask[0]) & 0x7f
            } else if i == 1 {
                raw[1] ^ mask[1]
            } else {
                raw[i + size] ^ mask[i + size]
            },
    )
}

/// The plain packet of wire bytes, where the access code is right.
pub open spec fn unwrapped(key: Seq<u8>, size: nat, raw: Seq<u8>) -> Option<Seq<u8>> {
    if carries_code(size, raw) && code_for(key, size, uncovered(key, size, raw)) == raw.subrange(
        2,
        2 + size as int,
    ) {
        Some(uncovered(key, size, raw))
    } else {
        None
    }
}

/// The access key of an interface.
pub struct IfacKey {
    /// The derived key; its second half is the seed of the signing key.
    pub key: [u8; 64],
    /// Length of the access code.
    pub size: usize,
}

impl IfacKey {
    /// The key bytes.
    pub open spec fn key(&self) -> Seq<u8> {
        self.key@
    }

    /// Derives the key of a network name and a passphrase. An access code has at least one byte.
    pub fn derive(netname: Option<&str>, netkey: Option<&str>, size: usize) -> (r: Self)
        ensures
            r.key() == access_key(netname, netkey),
            r.size == if size < IFAC_MIN_SIZE {
                IFAC_MIN_SIZE
            } else {
                size
            },
    {
        let mut origin: Vec<u8> = Vec::new();
        if let Some(netname) = netname {
            let digest: [u8; 32] = hash::sha256(netname.as_bytes());
            bytes::append(&mut origin, &digest);
        }
        let ghost first = origin@;
        assert(first =~= hash_part(netname));
        if let Some(netkey) = netkey {
            let digest: [u8; 32] = hash::sha256(netkey.as_bytes());
            bytes::append(&mut origin, &digest);
        }
        assert(origin@ =~= hash_part(netname) + hash_part(netkey));
        let origin_hash: [u8; 32] = hash::sha256(&origin);
        let derived: Vec<u8> = hkdf(&origin_hash, &IFAC_SALT, 64);
        let mut key: [u8; 64] = [0; 64];
        let mut i: usize = 0;
        while i < 64
            invariant
                i <= 64,
                derived@.len() == 64,
                key@.len() == 64,
                forall|j: int| 0 <= j < i ==> key@[j] == derived@[j],
            decreases 64 - i,
        {
            key[i] = derived[i];
            i += 1;
        }
        assert(key@ =~= derived@);
        let size: usize = if size < IFAC_MIN_SIZE {
            IFAC_MIN_SIZE
        } else {
            size
        };
        IfacKey { key, size }
    }

    /// The access code of a plain packet.
    fn ifac_for(&self, raw: &[u8]) -> (r: Vec<u8>)
        requires
            self.size <= SIGNATURE_SIZE,
        ensures
            r@ == code_for(self.key(), self.size as nat, raw@),
            r@.len() == self.size,
    {
        let mut seed: [u8; 32] = [0; 32];
        let mut i: usize = 0;
        while i < 32
            invariant
                i <= 32,
                seed@.len() == 32,
                self.key@.len() == 64,
                forall|j: int| 0 <= j < i ==> seed@[j] == self.key@[32 + j],
            decreases 32 - i,
        {
            seed[i] = self.key[32 + i];
            i += 1;
        }
        assert(seed@ =~= self.key@.subrange(32, 64));
        let signature: [u8; 64] = sign(&seed, raw);
        let r: Vec<u8> = bytes::slice_to_vec(
            &signature,
            SIGNATURE_SIZE - self.size,
            SIGNATURE_SIZE,
        );
        assert(r@ =~= code_for(self.key(), self.size as nat, raw@));
        r
    }

    /// Wraps a plain packet for the wire.
    pub fn apply(&self, raw: &[u8]) -> (r: Vec<u8>)
        requires
            self.size <= SIGNATURE_SIZE,
            2 <= raw@.len(),
            raw@.len() + self.size <= MAX_STREAM,
        ensures
            r@ == wrapped(self.key(), self.size as nat, raw@),
    {
        let code: Vec<u8> = self.ifac_for(raw);
        let total: usize = raw.len() + self.size;
        let mask: Vec<u8> = hkdf(&code, &self.key, total);
        let mut packet: Vec<u8> = Vec::new();
        packet.push(raw[0] | 0x80);
        packet.push(raw[1]);
        bytes::append(&mut packet, &code);
        bytes::append(&mut packet, &raw[2..raw.len()]);
        assert(packet@ =~= with_code(raw@, code@));
        let mut r: Vec<u8> = Vec::new();
        let mut i: usize = 0;
        let ghost target = masked(packet@, mask@, self.size as nat);
        while i < packet.len()
            invariant
                i <= packet@.len(),
                packet@.len() == total,
                mask@.len() == total,
                total == raw@.len() + self.size,
                total <= MAX_STREAM,
                target == masked(packet@, mask@, self.size as nat),
                r@ == target.take(i as int),
            decreases packet@.len() - i,
        {
            let byte: u8 = packet[i];
            if i == 0 {
                r.push((byte ^ mask[i]) | 0x80);
            } else if i == 1 || i > self.size + 1 {
                r.push(byte ^ mask[i]);
            } else {
                r.push(byte);
            }
            i += 1;
            assert(r@ =~= target.take(i as int));
        }
        assert(r@ =~= target);
        r
    }

    /// The packet under the mask of wire bytes.
    fn uncover(&self, raw: &[u8]) -> (r: Vec<u8>)
        requires
            raw@.len() > 2 + self.size,
            raw@.len() <= MAX_STREAM,
        ensures
            r@ == uncovered(self.key(), self.size as nat, raw@),
    {
        let code: Vec<u8> = bytes::slice_to_vec(raw, 2, 2 + self.size);
        let mask: Vec<u8> = hkdf(&code, &self.key, raw.len());
        let mut r: Vec<u8> = Vec::new();
        r.push((raw[0] ^ mask[0]) & 0x7f);
        r.push(raw[1] ^ mask[1]);
        let mut i: usize = 2 + self.size;
        let ghost target = uncovered(self.key(), self.size as nat, raw@);
        assert(r@ =~= target.take(2));
        while i < raw.len()
            invariant
                2 + self.size <= i <= raw@.len(),
                raw@.len() <= MAX_STREAM,
                raw@.len() == mask@.len(),
                mask@ == hkdf_sha256(
                    raw@.subrange(2, 2 + self.size),
                    self.key(),
                    raw@.len(),
                ),
                target == uncovered(self.key(), self.size as nat, raw@),
                r@ == target.take(i - self.size),
            decreases raw@.len() - i,
        {
            r.push(raw[i] ^ mask[i]);
            i += 1;
            assert(r@ =~= target.take(i - self.size));
        }
        assert(r@ =~= target);
        r
    }

    /// The plain packet of wire bytes; `None` when the access code is missing or wrong.
    pub fn strip(&self, raw: &[u8]) -> (r: Option<Vec<u8>>)
        requires
            carries_code(self.size as nat, raw@) ==> self.size <= SIGNATURE_SIZE && raw@.len()
                <= MAX_STREAM,
        ensures
            match unwrapped(self.key(), self.size as nat, raw@) {
                Some(plain) => r is Some && r->0@ == plain,
                None => r is None,
            },
    {
        if raw.len() == 0 || raw[0] & 0x80 == 0 {
            return None;
        }
        if raw.len() <= 2 || raw.len() - 2 <= self.size {
            return None;
        }
        let plain: Vec<u8> = self.uncover(raw);
        let expected: Vec<u8> = self.ifac_for(&plain);
        let code: Vec<u8> = bytes::slice_to_vec(raw, 2, 2 + self.size);
        if bytes::equal(&expected, &code) {
            Some(plain)
        } else {
            None
        }
    }
}

/// A packet as it goes on the wire of an interface.
pub fn encode(raw: &[u8], ifac: Option<&IfacKey>) -> (r: Vec<u8>)
    requires
        ifac is Some ==> ifac->0.size <= SIGNATURE_SIZE && 2 <= raw@.len() && raw@.len()
            + ifac->0.size <= MAX_STREAM,
    ensures
        r@ == match ifac {
            Some(ifac) => wrapped(ifac.key(), ifac.size as nat, raw@),
            None => raw@,
        },
{
    match ifac {
        Some(ifac) => ifac.apply(raw),
        None => bytes::to_vec(raw),
    }
}

/// The packet in wire bytes of an interface; `None` when it is to be dropped.
pub fn decode(raw: &[u8], ifac: Option<&IfacKey>) -> (r: Option<Vec<u8>>)
    requires
        ifac is Some && carries_code(ifac->0.size as nat, raw@) ==> ifac->0.size <= SIGNATURE_SIZE
            && raw@.len() <= MAX_STREAM,
    ensures
        match decoded_wire(raw@, ifac) {
            Some(plain) => r is Some && r->0@ == plain,
            None => r is None,
        },
{
    match ifac {
        Some(ifac) => ifac.strip(raw),
        None => Some(bytes::to_vec(raw)),
    }
}

/// The packet in wire bytes of an interface, if it is to be taken.
pub open spec fn decoded_wire(raw: Seq<u8>, ifac: Option<&IfacKey>) -> Option<Seq<u8>> {
    match ifac {
        Some(ifac) => unwrapped(ifac.key(), ifac.size as nat, raw),
        None => Some(raw),
    }
}

/// What masking and flagging a byte does, undone.
proof fn unmasking(b: u8, m: u8)
    ensures
        ((b ^ m) ^ m) == b,
        b < 0x80 ==> (((((b | 0x80) ^ m) | 0x80) ^ m) & 0x7f) == b,
        (b | 0x80) & 0x80 != 0,
{
    assert(((b ^ m) ^ m) == b && (b < 0x80 ==> (((((b | 0x80) ^ m) | 0x80) ^ m) & 0x7f) == b) && (b
        | 0x80) & 0x80 != 0) by (bit_vector);
}

/// What unmasking a flagged byte and taking its flag does, undone.
proof fn remasking(b: u8, m: u8)
    requires
        b & 0x80 != 0,
    ensures
        ((((b ^ m) & 0x7f) | 0x80) ^ m) | 0x80 == b,
{
    assert(((((b ^ m) & 0x7f) | 0x80) ^ m) | 0x80 == b) by (bit_vector)
        requires
            b & 0x80 != 0,
    ;
}

/// A wrapped packet is longer by the access code, carries the flag and can be stripped again; the
/// peer that shares the key gets the plain packet back. (A packet of only the two header bytes, or
/// one whose first bit is taken, is not a packet that this holds of.)
pub proof fn strip_inverts_apply(key: Seq<u8>, size: nat, raw: Seq<u8>)
    requires
        key.len() == 64,
        1 <= size <= SIGNATURE_SIZE,
        raw.len() >= 3,
        raw[0] < 0x80,
    ensures
        wrapped(key, size, raw).len() == raw.len() + size,
        wrapped(key, size, raw)[0] & 0x80 != 0,
        unwrapped(key, size, wrapped(key, size, raw)) == Some(raw),
{
    let code = code_for(key, size, raw);
    let mask = hkdf_sha256(code, key, raw.len() + size);
    let plain = with_code(raw, code);
    let wire = wrapped(key, size, raw);
    unmasking(plain[0] ^ mask[0], 0);
    assert(wire.subrange(2, 2 + size as int) =~= code);
    let out = uncovered(key, size, wire);
    assert forall|i: int| 0 <= i < raw.len() implies out[i] == raw[i] by {
        if i == 0 {
            unmasking(raw[0], mask[0]);
        } else if i == 1 {
            unmasking(raw[1], mask[1]);
        } else {
            assert(plain[i + size] == raw[i]);
            unmasking(raw[i], mask[i + size]);
        }
    }
    assert(out =~= raw);
}

/// What is taken, wrapped again with the same key, gives the same wire bytes: a peer takes only what
/// wrapping makes.
pub proof fn apply_inverts_strip(key: Seq<u8>, size: nat, wire: Seq<u8>)
    requires
        unwrapped(key, size, wire) is Some,
    ensures
        wrapped(key, size, unwrapped(key, size, wire)->0) == wire,
{
    let raw = unwrapped(key, size, wire)->0;
    let code = wire.subrange(2, 2 + size as int);
    let mask = hkdf_sha256(code, key, wire.len());
    let plain = with_code(raw, code);
    let out = wrapped(key, size, raw);
    assert(plain.len() == wire.len());
    assert forall|i: int| 0 <= i < wire.len() implies out[i] == wire[i] by {
        if i == 0 {
            remasking(wire[0], mask[0]);
        } else if i == 1 {
            unmasking(wire[1], mask[1]);
        } else if is_masked(size, i) {
            assert(plain[i] == raw[i - size]);
            unmasking(wire[i], mask[i]);
        } else {
            assert(plain[i] == code[i - 2]);
        }
    }
    assert(out =~= wire);
}

/// Bytes without the flag are never taken.
pub proof fn unflagged_is_rejected(key: Seq<u8>, size: nat, raw: Seq<u8>)
    requires
        raw.len() > 0 ==> raw[0] & 0x80 == 0,
    ensures
        unwrapped(key, size, raw) is None,
{
}

/// What is taken carries the code of what is delivered: only the holder of the key can have made
/// it.
pub proof fn taken_is_signed(key: Seq<u8>, size: nat, raw: Seq<u8>)
    requires
        unwrapped(key, size, raw) is Some,
    ensures
        raw.subrange(2, 2 + size as int) == code_for(key, size, unwrapped(key, size, raw)->0),
        unwrapped(key, size, raw)->0.len() + size == raw.len(),
{
}

} // verus!
