//! Cipher suites, key expansion and authenticated decryption.
//!
//! The AEAD cipher and the HKDF key derivation come from the `aes-gcm` and
//! `hkdf` crates. What they compute is named here and not restated: the
//! contracts of this module say which inputs are handed to them and how their
//! results are used.
use vstd::prelude::*;

use aes_gcm::aead::{Aead, KeyInit, Payload};
use aes_gcm::{Aes128Gcm, Aes256Gcm, Key, Nonce};
use hkdf::Hkdf;
use sha2::{Sha256, Sha512};

use crate::bytes::copy_range;
use crate::error::SframeError;
use crate::header::{lemma_pow256_positive, pow256};

verus! {

/// HKDF-SHA-256 (extract with `salt`, then expand with `info`) to `len` bytes.
pub uninterp spec fn hkdf_sha256_of(salt: Seq<u8>, ikm: Seq<u8>, info: Seq<u8>, len: nat) -> Seq<
    u8,
>;

/// HKDF-SHA-512 (extract with `salt`, then expand with `info`) to `len` bytes.
pub uninterp spec fn hkdf_sha512_of(salt: Seq<u8>, ikm: Seq<u8>, info: Seq<u8>, len: nat) -> Seq<
    u8,
>;

/// AES-128-GCM decryption of `msg` (ciphertext followed by its tag); `None`
/// when the tag does not verify.
pub uninterp spec fn aes128gcm_open_of(
    key: Seq<u8>,
    nonce: Seq<u8>,
    aad: Seq<u8>,
    msg: Seq<u8>,
) -> Option<Seq<u8>>;

/// AES-256-GCM decryption of `msg` (ciphertext followed by its tag); `None`
/// when the tag does not verify.
pub uninterp spec fn aes256gcm_open_of(
    key: Seq<u8>,
    nonce: Seq<u8>,
    aad: Seq<u8>,
    msg: Seq<u8>,
) -> Option<Seq<u8>>;

/// Relies on `hkdf::Hkdf::<Sha256>::new` and `Hkdf::expand`: the output key
/// material depends on the inputs alone, and `expand` fails exactly when more
/// than 255 hash blocks are asked for.
#[verifier::external_body]
fn hkdf_sha256(salt: &[u8], ikm: &[u8], info: &[u8], len: usize) -> (r: Option<Vec<u8>>)
    ensures
        r is Some <==> len <= 255 * 32,
        r matches Some(okm) ==> okm@ == hkdf_sha256_of(salt@, ikm@, info@, len as nat)
            && okm@.len() == len,
{
    let mut okm = vec![0u8; len];
    match Hkdf::<Sha256>::new(Some(salt), ikm).expand(info, &mut okm) {
        Ok(()) => Some(okm),
        Err(_) => None,
    }
}

/// Relies on `hkdf::Hkdf::<Sha512>::new` and `Hkdf::expand`: the output key
/// material depends on the inputs alone, and `expand` fails exactly when more
/// than 255 hash blocks are asked for.
#[verifier::external_body]
fn hkdf_sha512(salt: &[u8], ikm: &[u8], info: &[u8], len: usize) -> (r: Option<Vec<u8>>)
    ensures
        r is Some <==> len <= 255 * 64,
        r matches Some(okm) ==> okm@ == hkdf_sha512_of(salt@, ikm@, info@, len as nat)
            && okm@.len() == len,
{
    let mut okm = vec![0u8; len];
    match Hkdf::<Sha512>::new(Some(salt), ikm).expand(info, &mut okm) {
        Ok(()) => Some(okm),
        Err(_) => None,
    }
}

/// Relies on `aes_gcm::Aes128Gcm` through `Aead::decrypt`: the result depends
/// on the inputs alone; a message shorter than the 16-byte tag is refused, and
/// the plaintext is the message without its tag.
#[verifier::external_body]
fn aes128gcm_open(key: &[u8], nonce: &[u8], aad: &[u8], msg: &[u8]) -> (r: Option<Vec<u8>>)
    requires
        key@.len() == 16,
        nonce@.len() == 12,
    ensures
        match r {
            Some(p) => aes128gcm_open_of(key@, nonce@, aad@, msg@) == Some(p@),
            None => aes128gcm_open_of(key@, nonce@, aad@, msg@) is None,
        },
        r matches Some(p) ==> p@.len() + 16 == msg@.len(),
        msg@.len() < 16 ==> r is None,
{
    let cipher = Aes128Gcm::new(Key::<Aes128Gcm>::from_slice(key));
    cipher.decrypt(Nonce::from_slice(nonce), Payload { msg, aad }).ok()
}

/// Relies on `aes_gcm::Aes256Gcm` through `Aead::decrypt`: the result depends
/// on the inputs alone; a message shorter than the 16-byte tag is refused, and
/// the plaintext is the message without its tag.
#[verifier::external_body]
fn aes256gcm_open(key: &[u8], nonce: &[u8], aad: &[u8], msg: &[u8]) -> (r: Option<Vec<u8>>)
    requires
        key@.len() == 32,
        nonce@.len() == 12,
    ensures
        match r {
            Some(p) => aes256gcm_open_of(key@, nonce@, aad@, msg@) == Some(p@),
            None => aes256gcm_open_of(key@, nonce@, aad@, msg@) is None,
        },
        r matches Some(p) ==> p@.len() + 16 == msg@.len(),
        msg@.len() < 16 ==> r is None,
{
    let cipher = Aes256Gcm::new(Key::<Aes256Gcm>::from_slice(key));
    cipher.decrypt(Nonce::from_slice(nonce), Payload { msg, aad }).ok()
}

/// The salt of the key derivation: the bytes of "SFrame10".
pub open spec fn kdf_salt() -> Seq<u8> {
    seq![0x53u8, 0x46, 0x72, 0x61, 0x6d, 0x65, 0x31, 0x30]
}

/// The expansion label of the encryption key: the bytes of "key".
pub open spec fn kdf_key_label() -> Seq<u8> {
    seq![0x6bu8, 0x65, 0x79]
}

/// The expansion label of the nonce salt: the bytes of "salt".
pub open spec fn kdf_salt_label() -> Seq<u8> {
    seq![0x73u8, 0x61, 0x6c, 0x74]
}

/// The supported cipher suites: AES-GCM for the frames, HKDF over the named
/// hash for the key material.
#[derive(Debug, Clone, Copy, PartialEq, Eq, Structural)]
pub enum CipherSuiteVariant {
    AesGcm128Sha256,
    AesGcm256Sha512,
}

impl CipherSuiteVariant {
    pub open spec fn key_len_spec(&self) -> nat {
        match self {
            CipherSuiteVariant::AesGcm128Sha256 => 16,
            CipherSuiteVariant::AesGcm256Sha512 => 32,
        }
    }

    /// Length of the AEAD key in bytes.
    pub fn key_len(&self) -> (r: usize)
        ensures
            r == self.key_len_spec(),
    {
        match self {
            CipherSuiteVariant::AesGcm128Sha256 => 16,
            CipherSuiteVariant::AesGcm256Sha512 => 32,
        }
    }

    /// Length of the AEAD nonce in bytes.
    pub fn nonce_len(&self) -> (r: usize)
        ensures
            r == 12,
    {
        12
    }

    /// Length of the authentication tag in bytes.
    pub fn auth_tag_len(&self) -> (r: usize)
        ensures
            r == 16,
    {
        16
    }

    /// The suite's HKDF over `ikm` with the fixed salt and label `info`.
    pub open spec fn kdf(&self, ikm: Seq<u8>, info: Seq<u8>, len: nat) -> Seq<u8> {
        match self {
            CipherSuiteVariant::AesGcm128Sha256 => hkdf_sha256_of(kdf_salt(), ikm, info, len),
            CipherSuiteVariant::AesGcm256Sha512 => hkdf_sha512_of(kdf_salt(), ikm, info, len),
        }
    }

    /// The suite's AEAD decryption.
    pub open spec fn open(&self, key: Seq<u8>, nonce: Seq<u8>, aad: Seq<u8>, msg: Seq<u8>) -> Option<
        Seq<u8>,
    > {
        match self {
            CipherSuiteVariant::AesGcm128Sha256 => aes128gcm_open_of(key, nonce, aad, msg),
            CipherSuiteVariant::AesGcm256Sha512 => aes256gcm_open_of(key, nonce, aad, msg),
        }
    }

    /// The encryption key derived from `ikm`.
    pub open spec fn secret_key(&self, ikm: Seq<u8>) -> Seq<u8> {
        self.kdf(ikm, kdf_key_label(), self.key_len_spec())
    }

    /// The nonce salt derived from `ikm`.
    pub open spec fn secret_salt(&self, ikm: Seq<u8>) -> Seq<u8> {
        self.kdf(ikm, kdf_salt_label(), 12)
    }

    /// Expands raw key material into this suite's secret.
    pub fn expand_as_secret(&self, key_material: &[u8]) -> (r: Result<Secret, SframeError>)
        ensures
            r matches Ok(s) && s.key_spec() == self.secret_key(key_material@) && s.salt_spec()
                == self.secret_salt(key_material@) && s.fits(*self),
    {
        let salt = vec![0x53u8, 0x46, 0x72, 0x61, 0x6d, 0x65, 0x31, 0x30];
        let key_label = vec![0x6bu8, 0x65, 0x79];
        let salt_label = vec![0x73u8, 0x61, 0x6c, 0x74];
        proof {
            assert(salt@ =~= kdf_salt());
            assert(key_label@ =~= kdf_key_label());
            assert(salt_label@ =~= kdf_salt_label());
        }
        let key_len = self.key_len();
        let (key, nonce_salt) = match self {
            CipherSuiteVariant::AesGcm128Sha256 => (
                hkdf_sha256(&salt, key_material, &key_label, key_len),
                hkdf_sha256(&salt, key_material, &salt_label, 12),
            ),
            CipherSuiteVariant::AesGcm256Sha512 => (
                hkdf_sha512(&salt, key_material, &key_label, key_len),
                hkdf_sha512(&salt, key_material, &salt_label, 12),
            ),
        };
        match (key, nonce_salt) {
            (Some(key), Some(salt)) => Ok(Secret { key, salt }),
            _ => Err(SframeError::KeyExpansion),
        }
    }

    /// Decrypts `msg` (ciphertext followed by its tag) with `secret`, the
    /// header bytes `aad` as associated data and a nonce derived from
    /// `frame_counter`.
    pub fn decrypt(&self, secret: &Secret, aad: &[u8], msg: &[u8], frame_counter: u64) -> (r:
        Result<Vec<u8>, SframeError>)
        requires
            secret.fits(*self),
        ensures
            match self.open(
                secret.key_spec(),
                nonce_of(secret.salt_spec(), frame_counter),
                aad@,
                msg@,
            ) {
                Some(p) => r matches Ok(v) && v@ == p,
                None => r == Err::<Vec<u8>, SframeError>(SframeError::DecryptionFailure),
            },
    {
        let nonce = derive_nonce(&secret.salt, frame_counter);
        let opened = match self {
            CipherSuiteVariant::AesGcm128Sha256 => aes128gcm_open(
                secret.key.as_slice(),
                nonce.as_slice(),
                aad,
                msg,
            ),
            CipherSuiteVariant::AesGcm256Sha512 => aes256gcm_open(
                secret.key.as_slice(),
                nonce.as_slice(),
                aad,
                msg,
            ),
        };
        match opened {
            Some(p) => Ok(p),
            None => Err(SframeError::DecryptionFailure),
        }
    }
}

/// Key material expanded for a cipher suite: the AEAD key and the salt that
/// the nonces are derived from.
pub struct Secret {
    key: Vec<u8>,
    salt: Vec<u8>,
}

impl Secret {
    pub closed spec fn key_spec(&self) -> Seq<u8> {
        self.key@
    }

    pub closed spec fn salt_spec(&self) -> Seq<u8> {
        self.salt@
    }

    /// The key and the salt have the lengths that `suite` needs.
    pub open spec fn fits(&self, suite: CipherSuiteVariant) -> bool {
        self.key_spec().len() == suite.key_len_spec() && self.salt_spec().len() == 12
    }
}

/// Byte `j` of `ctr` counted from the least significant one (zero past the eighth).
pub open spec fn counter_byte(ctr: u64, j: nat) -> u8 {
    ((ctr as nat / pow256(j)) % 256) as u8
}

/// The nonce for frame counter `ctr`: the salt XOR the counter written
/// big-endian over the salt's whole length.
pub open spec fn nonce_of(salt: Seq<u8>, ctr: u64) -> Seq<u8> {
    Seq::new(salt.len(), |i: int| salt[i] ^ counter_byte(ctr, (salt.len() - 1 - i) as nat))
}

/// Computes `nonce_of(salt, ctr)`.
fn derive_nonce(salt: &Vec<u8>, ctr: u64) -> (r: Vec<u8>)
    ensures
        r@ == nonce_of(salt@, ctr),
{
    let n = salt.len();
    let mut out = copy_range(salt.as_slice(), 0, n);
    let mut c: u64 = ctr;
    let mut j: usize = 0;
    proof {
        assert(salt@.subrange(0, n as int) =~= salt@);
        assert(pow256(0) == 1);
    }
    while j < n
        invariant
            n == salt@.len(),
            out@.len() == n,
            j <= n,
            c as nat == ctr as nat / pow256(j as nat),
            forall|k: int| 0 <= k < n - j ==> out@[k] == salt@[k],
            forall|k: int|
                n - j <= k < n ==> out@[k] == salt@[k] ^ counter_byte(ctr, (n - 1 - k) as nat),
        decreases n - j,
    {
        let pos = n - 1 - j;
        let b: u8 = (c % 256) as u8;
        out.set(pos, salt[pos] ^ b);
        proof {
            assert(counter_byte(ctr, j as nat) == b);
            lemma_pow256_positive(j as nat);
            vstd::arithmetic::div_mod::lemma_div_denominator(
                ctr as int,
                pow256(j as nat) as int,
                256,
            );
            assert(pow256((j + 1) as nat) == pow256(j as nat) * 256);
        }
        c = c / 256;
        j = j + 1;
    }
    assert(out@ =~= nonce_of(salt@, ctr));
    out
}

} // verus!
