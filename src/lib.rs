//! Hides a byte payload in the least significant bits of 16-bit PCM samples.
//!
//! A passphrase seeds a shuffle of the sample indices; the payload, framed
//! with its length, is written one bit per sample along that order, so only
//! holders of the passphrase find it again. The payload may be sealed with
//! AES-256-SIV, or with a caller's own transform, before it is framed.

mod channel;
mod digest;
mod encryption;
mod frame;
mod permutation;
mod stego;
mod wav;

pub use channel::{
    lemma_lsbs_are_bits, lemma_write_same, lemma_written, lsb, lsbs_along, read_bits, touched, upper_bits, with_lsb, write_bits, written,
};
pub use digest::{key_to_seed, le_u64_of, seed_of, sha256_of};
pub use encryption::{
    cipher_key_of, decrypt_aes_siv, derive_key_from_passphrase, encrypt_aes_siv, is_sealing,
    lemma_open_sealed, opened, siv_open, siv_seal, Encryption, PayloadCipher,
};
pub use frame::{
    announced_length, bit_at, bits_of, bits_value, body_byte, body_end, decode_frame,
    decode_frame_bits, encode_frame, frame_bits, header_end, is_bits, lemma_frame_of_decoded, lemma_frame_round_trip,
    payload_bits,
};
pub use permutation::{
    identity, is_permutation, lemma_permutation_deterministic, permutation_of, shuffle_indices,
    shuffled,
};
pub use stego::{
    embed_bytes, embed_message, embed_outcome, embedded, extract_bytes, extract_message,
    extracted, fits, lsb_only_change, lemma_embed_present, lemma_read_back, lemma_sealed_read_back, EmbedError, MAX_PAYLOAD_LEN,
};
pub use wav::{
    bytes_per_sample, can_encode, default_spec, default_spec_value, is_encodable, reads_back,
    rewritten, wav_file_of, wav_samples_of, wav_spec_of, AudioSpec, WavBuffer,
};
