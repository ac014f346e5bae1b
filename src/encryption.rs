use crate::digest::{sha256, sha256_of};
use aes_siv::siv::Aes256Siv;
use aes_siv::KeyInit;
use generic_array::GenericArray;
use rand::Rng;
use vstd::prelude::*;

verus! {

/// How a payload is protected before it is framed.
#[derive(Clone, Copy, Debug)]
pub enum Encryption<C> {
    /// The payload is framed as it is.
    NoEncryption,
    /// AES-256-SIV under a key derived from the passphrase, with a random
    /// nonce sent in front of the ciphertext.
    Default,
    /// A transform that the caller supplies.
    Custom(C),
}

impl<C> Default for Encryption<C> {
    fn default() -> (r: Self)
        ensures
            r is Default,
    {
        Encryption::Default
    }
}

/// A payload transform that a caller supplies in place of the built-in
/// cipher: `seal` runs on the payload before it is framed, `open` on the bytes
/// that extraction recovers.
pub trait PayloadCipher {
    fn seal(&self, data: &Vec<u8>, key: &str) -> Vec<u8>;

    fn open(&self, data: &Vec<u8>, key: &str) -> Vec<u8>;
}

/// The AES-256-SIV ciphertext of `msg` under `key` with `nonce` as its one
/// associated-data header: a 16-byte synthetic IV, then the encrypted bytes.
pub uninterp spec fn siv_seal(key: Seq<u8>, nonce: Seq<u8>, msg: Seq<u8>) -> Seq<u8>;

/// What AES-256-SIV decryption of `ct` under `key` and `nonce` gives: the
/// plaintext, or nothing when the synthetic IV does not authenticate.
pub uninterp spec fn siv_open(key: Seq<u8>, nonce: Seq<u8>, ct: Seq<u8>) -> Option<Seq<u8>>;

/// Relies on aes-siv's `Aes256Siv::new` and `Siv::encrypt`: with one header
/// the encryption cannot fail; the output is the 16-byte tag followed by as
/// many bytes as the plaintext, and decryption with the same key and header
/// gives the plaintext back.
#[verifier::external_body]
fn siv_encrypt(key: &Vec<u8>, nonce: &Vec<u8>, msg: &Vec<u8>) -> (r: Vec<u8>)
    requires
        key@.len() == 64,
    ensures
        r@ == siv_seal(key@, nonce@, msg@),
        r@.len() == msg@.len() + 16,
        siv_open(key@, nonce@, r@) == Some(msg@),
{
    let mut cipher = Aes256Siv::new(GenericArray::from_slice(key.as_slice()));
    cipher.encrypt(&[nonce.as_slice()], msg.as_slice()).expect("one header is always accepted")
}

/// Relies on aes-siv's `Aes256Siv::new` and `Siv::decrypt`: the plaintext when
/// the tag authenticates `ct` under the key and header, else an error. The
/// plaintext is `ct` without its 16-byte tag, so 16 bytes shorter.
#[verifier::external_body]
fn siv_decrypt(key: &Vec<u8>, nonce: &[u8], ct: &[u8]) -> (r: Option<Vec<u8>>)
    requires
        key@.len() == 64,
    ensures
        r is Some <==> siv_open(key@, nonce@, ct@) is Some,
        r is Some ==> siv_open(key@, nonce@, ct@) == Some(r->Some_0@),
        r is Some ==> r->Some_0@.len() + 16 == ct@.len(),
{
    let mut cipher = Aes256Siv::new(GenericArray::from_slice(key.as_slice()));
    cipher.decrypt(&[nonce], ct).ok()
}

/// Relies on rand's thread-local generator (`rand::rng().random()`): sixteen
/// random bytes, independent of any passphrase.
#[verifier::external_body]
fn random_nonce() -> (r: Vec<u8>)
    ensures
        r@.len() == 16,
{
    let nonce: [u8; 16] = rand::rng().random();
    nonce.to_vec()
}

/// The 64-byte cipher key of a passphrase: its SHA-256 digest, twice.
pub open spec fn cipher_key_of(passphrase: Seq<char>) -> Seq<u8> {
    sha256_of(passphrase) + sha256_of(passphrase)
}

/// Derives the 64-byte cipher key of a passphrase by repeating its 32-byte
/// SHA-256 digest. This gives 256 bits of key diversity, not 512.
pub fn derive_key_from_passphrase(passphrase: &str) -> (r: Vec<u8>)
    ensures
        r@ == cipher_key_of(passphrase@),
        r@.len() == 64,
{
    let hash = sha256(passphrase);
    let mut key: Vec<u8> = Vec::with_capacity(64);
    let mut round: usize = 0;
    while round < 2
        invariant
            round <= 2,
            hash@ == sha256_of(passphrase@),
            hash@.len() == 32,
            round == 0 ==> key@ == Seq::<u8>::empty(),
            round == 1 ==> key@ == hash@,
            round == 2 ==> key@ == hash@ + hash@,
        decreases 2 - round,
    {
        let ghost before = key@;
        let mut i: usize = 0;
        while i < hash.len()
            invariant
                i <= hash@.len(),
                key@ == before + hash@.take(i as int),
            decreases hash.len() - i,
        {
            key.push(hash[i]);
            i = i + 1;
            assert(key@ =~= before + hash@.take(i as int));
        }
        assert(hash@.take(32) =~= hash@);
        assert(round == 0 ==> before + hash@ =~= hash@);
        round = round + 1;
    }
    key
}

/// `blob` is a sealing of `message` under `passphrase`: a 16-byte nonce, then
/// the AES-256-SIV ciphertext of the message under that nonce.
pub open spec fn is_sealing(blob: Seq<u8>, message: Seq<u8>, passphrase: Seq<char>) -> bool {
    &&& blob.len() == message.len() + 32
    &&& blob.skip(16) == siv_seal(cipher_key_of(passphrase), blob.take(16), message)
    &&& siv_open(cipher_key_of(passphrase), blob.take(16), blob.skip(16)) == Some(message)
}

/// Opening a sealing of a message with the passphrase that sealed it gives
/// the message back.
pub proof fn lemma_open_sealed(blob: Seq<u8>, message: Seq<u8>, passphrase: Seq<char>)
    requires
        is_sealing(blob, message, passphrase),
    ensures
        opened(blob, passphrase) == message,
{
}

/// What opening `data` under `passphrase` gives: data too short to hold a
/// nonce as it is; else the plaintext when it authenticates, and the bytes
/// after the nonce when it does not.
pub open spec fn opened(data: Seq<u8>, passphrase: Seq<char>) -> Seq<u8> {
    if data.len() < 16 {
        data
    } else {
        match siv_open(cipher_key_of(passphrase), data.take(16), data.skip(16)) {
            Some(m) => m,
            None => data.skip(16),
        }
    }
}

/// Encrypts a message with AES-256-SIV under the passphrase's key and a fresh
/// random nonce; the result is the nonce followed by the ciphertext. Opening
/// it with the same passphrase gives the message back.
pub fn encrypt_aes_siv(message: &Vec<u8>, key: &str) -> (r: Vec<u8>)
    ensures
        is_sealing(r@, message@, key@),
        opened(r@, key@) == message@,
{
    let cipher_key = derive_key_from_passphrase(key);
    let nonce = random_nonce();
    let ciphertext = siv_encrypt(&cipher_key, &nonce, message);
    let mut combined = nonce.clone();
    let mut i: usize = 0;
    assert(combined@ == nonce@);
    while i < ciphertext.len()
        invariant
            i <= ciphertext@.len(),
            combined@ == nonce@ + ciphertext@.take(i as int),
        decreases ciphertext.len() - i,
    {
        combined.push(ciphertext[i]);
        i = i + 1;
        assert(combined@ =~= nonce@ + ciphertext@.take(i as int));
    }
    assert(ciphertext@.take(i as int) =~= ciphertext@);
    assert(combined@.take(16) =~= nonce@);
    assert(combined@.skip(16) =~= ciphertext@);
    combined
}

/// The bytes of `data` from `start` on.
fn tail_of(data: &Vec<u8>, start: usize) -> (r: Vec<u8>)
    requires
        start <= data@.len(),
    ensures
        r@ == data@.skip(start as int),
{
    let mut out: Vec<u8> = Vec::with_capacity(data.len() - start);
    let mut i: usize = start;
    while i < data.len()
        invariant
            start <= i <= data@.len(),
            out@ == data@.subrange(start as int, i as int),
        decreases data.len() - i,
    {
        out.push(data[i]);
        i = i + 1;
        assert(out@ =~= data@.subrange(start as int, i as int));
    }
    assert(data@.subrange(start as int, i as int) =~= data@.skip(start as int));
    out
}

/// Opens what `encrypt_aes_siv` made. It never fails: data shorter than a
/// nonce comes back unchanged, and data that does not authenticate under the
/// passphrase comes back without its nonce, still encrypted.
pub fn decrypt_aes_siv(data: &Vec<u8>, key: &str) -> (r: Vec<u8>)
    ensures
        r@ == opened(data@, key@),
        data@.len() >= 16 && siv_open(cipher_key_of(key@), data@.take(16), data@.skip(16)) is Some
            ==> r@.len() + 32 == data@.len(),
{
    let cipher_key = derive_key_from_passphrase(key);
    if data.len() < 16 {
        return data.clone();
    }
    let (nonce, ciphertext) = data.as_slice().split_at(16);
    assert(nonce@ == data@.take(16));
    assert(ciphertext@ == data@.skip(16));
    match siv_decrypt(&cipher_key, nonce, ciphertext) {
        Some(plain) => plain,
        None => tail_of(data, 16),
    }
}

} // verus!
