use crate::encryption::{decrypt_aes_siv, encrypt_aes_siv, is_sealing, opened, Encryption, PayloadCipher};
use crate::channel::{lemma_lsbs_are_bits, lemma_write_same, lsb, lemma_written, lsbs_along, read_bits, touched, upper_bits, write_bits, written};
use crate::frame::{is_bits, lemma_frame_of_decoded, decode_frame, decode_frame_bits, encode_frame, frame_bits, lemma_frame_round_trip};
use crate::permutation::{is_permutation, permutation_of, shuffle_indices};
use vstd::prelude::*;

verus! {

/// Why a payload could not be hidden in a carrier.
#[derive(Debug, Clone, Copy, PartialEq, Eq, Structural)]
pub enum EmbedError {
    /// The framed payload needs more samples than the carrier has, or more
    /// bytes than a sixteen-bit length can announce.
    CapacityExceeded { payload_len: usize, sample_count: usize },
}

/// The largest payload, in bytes, that a frame can announce.
pub const MAX_PAYLOAD_LEN: usize = 0xFFFF;

/// A payload of `len` bytes can be framed and carried by `n` samples.
pub open spec fn fits(len: nat, n: nat) -> bool {
    len <= MAX_PAYLOAD_LEN && 16 + 8 * len <= n
}

/// The carrier `s` with the frame of `payload` written along the order that
/// `key` selects.
pub open spec fn embedded(s: Seq<i16>, payload: Seq<u8>, key: Seq<char>) -> Seq<i16> {
    written(s, permutation_of(key, s.len()), frame_bits(payload))
}

/// The bytes that the carrier `s` yields under `key`.
pub open spec fn extracted(s: Seq<i16>, key: Seq<char>) -> Seq<u8> {
    decode_frame(lsbs_along(s, permutation_of(key, s.len())))
}

/// `after` differs from `before` only in the least significant bits, by at
/// most one per sample, and only in the samples that carry the first
/// `16 + 8 * len` positions of the order that `key` selects.
pub open spec fn lsb_only_change(before: Seq<i16>, after: Seq<i16>, key: Seq<char>, len: nat) -> bool {
    &&& after.len() == before.len()
    &&& forall|i: int|
        0 <= i < before.len() ==> upper_bits(#[trigger] after[i]) == upper_bits(before[i])
    &&& forall|i: int| 0 <= i < before.len() ==> -1 <= #[trigger] after[i] - before[i] <= 1
    &&& forall|i: int|
        0 <= i < before.len() && !touched(permutation_of(key, before.len()), 16 + 8 * len as int, i)
            ==> #[trigger] after[i] == before[i]
}

/// Hides `bytes` in the least significant bits of `samples`, along the order
/// that `key` selects. Fails, leaving the samples as they were, when the
/// framed payload does not fit.
pub fn embed_bytes(samples: &mut Vec<i16>, bytes: &Vec<u8>, key: &str) -> (r: Result<(), EmbedError>)
    ensures
        r is Ok <==> fits(bytes@.len(), old(samples)@.len()),
        r is Err ==> *final(samples) == *old(samples),
        r is Err ==> r == Err::<(), EmbedError>(
            EmbedError::CapacityExceeded { payload_len: bytes.len(), sample_count: old(samples).len() },
        ),
        r is Ok ==> final(samples)@ == embedded(old(samples)@, bytes@, key@),
        r is Ok ==> extracted(final(samples)@, key@) == bytes@,
        final(samples)@.len() == old(samples)@.len(),
        r is Ok ==> is_permutation(permutation_of(key@, old(samples)@.len()), old(samples)@.len()),
        lsb_only_change(old(samples)@, final(samples)@, key@, bytes@.len()),
        16 + 8 * bytes@.len() < old(samples)@.len() && extracted(old(samples)@, key@) == bytes@
            ==> r is Ok && final(samples)@ == old(samples)@,
{
    let n = samples.len();
    let perm = shuffle_indices(key, n);
    proof {
        if 16 + 8 * bytes@.len() < n && extracted(samples@, key@) == bytes@ {
            assert(is_bits(lsbs_along(samples@, permutation_of(key@, n as nat)))) by {
                lemma_lsbs_are_bits(samples@, permutation_of(key@, n as nat));
            }
            lemma_frame_of_decoded(lsbs_along(samples@, permutation_of(key@, n as nat)), bytes@);
        }
    }
    if bytes.len() > MAX_PAYLOAD_LEN || 16 + 8 * bytes.len() > n {
        return Err(EmbedError::CapacityExceeded { payload_len: bytes.len(), sample_count: n });
    }
    let bits = encode_frame(bytes);
    let ghost start = samples@;
    write_bits(samples, &perm, &bits);
    proof {
        lemma_written(start, perm@, bits@);
        lemma_read_back(start, bytes@, key@);
        if 16 + 8 * bytes@.len() < start.len() && extracted(start, key@) == bytes@ {
            lemma_embed_present(start, bytes@, key@);
        }
    }
    Ok(())
}

/// Reads a payload from the least significant bits of `samples`, along the
/// order that `key` selects. It never fails: under another key it yields
/// whatever those bits spell.
pub fn extract_bytes(samples: &Vec<i16>, key: &str) -> (r: Vec<u8>)
    ensures
        r@ == extracted(samples@, key@),
{
    let perm = shuffle_indices(key, samples.len());
    let bits = read_bits(samples, &perm);
    decode_frame_bits(&bits)
}

/// Embedding a payload that the carrier already holds under the same key, with
/// room to spare after its frame, leaves every sample as it was.
pub proof fn lemma_embed_present(s: Seq<i16>, payload: Seq<u8>, key: Seq<char>)
    requires
        extracted(s, key) == payload,
        16 + 8 * payload.len() < s.len(),
        is_permutation(permutation_of(key, s.len()), s.len()),
    ensures
        embedded(s, payload, key) == s,
{
    let p = permutation_of(key, s.len());
    let bits = lsbs_along(s, p);
    lemma_lsbs_are_bits(s, p);
    lemma_frame_of_decoded(bits, payload);
    let f = frame_bits(payload);
    assert forall|k: int| 0 <= k < f.len() implies #[trigger] f[k] == lsb(s[p[k] as int]) by {
        assert(bits.take(16 + 8 * payload.len() as int)[k] == bits[k]);
    }
    lemma_write_same(s, p, f);
}

/// Extracting with the key that embedded a payload gives the payload back,
/// for every payload that fits the carrier. The order that the key selects is
/// a permutation of the samples, as `shuffle_indices` ensures.
pub proof fn lemma_read_back(s: Seq<i16>, payload: Seq<u8>, key: Seq<char>)
    requires
        fits(payload.len(), s.len()),
        is_permutation(permutation_of(key, s.len()), s.len()),
    ensures
        extracted(embedded(s, payload, key), key) == payload,
{
    let p = permutation_of(key, s.len());
    let f = frame_bits(payload);
    lemma_written(s, p, f);
    let w = embedded(s, payload, key);
    let bits = lsbs_along(w, permutation_of(key, w.len()));
    assert(bits.take(16 + 8 * payload.len() as int) =~= f);
    lemma_frame_round_trip(payload, bits);
}

/// What embedding `payload` did: it succeeded exactly when the payload fits,
/// and then wrote its frame; else it left the samples alone.
pub open spec fn embed_outcome(
    before: Seq<i16>,
    after: Seq<i16>,
    r: Result<(), EmbedError>,
    payload: Seq<u8>,
    key: Seq<char>,
) -> bool {
    &&& r is Ok <==> fits(payload.len(), before.len())
    &&& r is Ok ==> after == embedded(before, payload, key)
    &&& r is Err ==> after == before
}

/// Protects `message` as `encryption` says and hides the result in
/// `samples` along the order that `key` selects. With AES-256-SIV the nonce is
/// random, so what is written is some sealing of the message; with a custom
/// transform, whatever it returned.
pub fn embed_message<C: PayloadCipher>(
    samples: &mut Vec<i16>,
    message: &Vec<u8>,
    key: &str,
    encryption: Encryption<C>,
) -> (r: Result<(), EmbedError>)
    ensures
        encryption is NoEncryption ==> embed_outcome(old(samples)@, final(samples)@, r, message@, key@),
        encryption is Default ==> exists|blob: Seq<u8>|
            is_sealing(blob, message@, key@) && embed_outcome(
                old(samples)@,
                final(samples)@,
                r,
                blob,
                key@,
            ),
        encryption is Default ==> (r is Ok <==> fits(message@.len() + 32, old(samples)@.len())),
        encryption is Custom ==> exists|blob: Seq<u8>|
            embed_outcome(old(samples)@, final(samples)@, r, blob, key@),
{
    let payload = match encryption {
        Encryption::NoEncryption => message.clone(),
        Encryption::Default => encrypt_aes_siv(message, key),
        Encryption::Custom(cipher) => cipher.seal(message, key),
    };
    assert(encryption is NoEncryption ==> payload@ == message@);
    let ghost before = samples@;
    let r = embed_bytes(samples, &payload, key);
    assert(embed_outcome(before, samples@, r, payload@, key@));
    r
}

/// Reads the payload that `key` selects from `samples` and undoes what
/// `encryption` did to it. It never fails: under a wrong key the cipher's
/// fallback returns the recovered bytes without their nonce.
pub fn extract_message<C: PayloadCipher>(samples: &Vec<i16>, key: &str, decryption: Encryption<C>) -> (r: Vec<u8>)
    ensures
        decryption is NoEncryption ==> r@ == extracted(samples@, key@),
        decryption is Default ==> r@ == opened(extracted(samples@, key@), key@),
{
    let bytes = extract_bytes(samples, key);
    match decryption {
        Encryption::NoEncryption => bytes,
        Encryption::Default => decrypt_aes_siv(&bytes, key),
        Encryption::Custom(cipher) => cipher.open(&bytes, key),
    }
}

/// Embedding a sealing of a message and extracting it again with the same
/// passphrase, then opening, gives the message back.
pub proof fn lemma_sealed_read_back(s: Seq<i16>, message: Seq<u8>, blob: Seq<u8>, key: Seq<char>)
    requires
        is_sealing(blob, message, key),
        fits(blob.len(), s.len()),
        is_permutation(permutation_of(key, s.len()), s.len()),
    ensures
        opened(extracted(embedded(s, blob, key), key), key) == message,
{
    lemma_read_back(s, blob, key);
}

} // verus!
