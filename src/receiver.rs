//! The receiver: a key store, a cipher suite and a validation policy, tied
//! together to decrypt incoming frames.
use vstd::prelude::*;

use std::collections::HashMap;

use crate::bytes::{append_range, copy_range};
use crate::crypto::{nonce_of, CipherSuiteVariant, Secret};
use crate::error::{KeyId, SframeError};
use crate::frame_validation::{FrameValidation, ReplayAttackProtection};
use crate::header::{header_at, parse_header, Header};

verus! {

broadcast use vstd::std_specs::hash::group_hash_axioms;

/// The configuration of a receiver: its cipher suite, its validation policy,
/// and whether a frame that passes validation but fails decryption still
/// consumes its frame counter (the default).
pub struct ReceiverOptions {
    cipher_suite: CipherSuiteVariant,
    frame_validation: FrameValidation,
    consume_counter_on_failure: bool,
}

impl ReceiverOptions {
    pub closed spec fn cipher_suite_spec(&self) -> CipherSuiteVariant {
        self.cipher_suite
    }

    pub closed spec fn validation_spec(&self) -> FrameValidation {
        self.frame_validation
    }

    pub closed spec fn consumes_on_failure(&self) -> bool {
        self.consume_counter_on_failure
    }

    pub open spec fn wf(&self) -> bool {
        self.validation_spec().wf()
    }

    /// Options with the given suite and policy; failed frames consume their counter.
    pub fn new(cipher_suite: CipherSuiteVariant, frame_validation: FrameValidation) -> (r: Self)
        requires
            frame_validation.wf(),
        ensures
            r.wf(),
            r.cipher_suite_spec() == cipher_suite,
            r.validation_spec() == frame_validation,
            r.consumes_on_failure(),
    {
        ReceiverOptions { cipher_suite, frame_validation, consume_counter_on_failure: true }
    }

    /// Sets whether a frame that passes validation but fails decryption still
    /// consumes its frame counter.
    pub fn set_consume_counter_on_failure(&mut self, consume: bool)
        ensures
            final(self).consumes_on_failure() == consume,
            final(self).cipher_suite_spec() == old(self).cipher_suite_spec(),
            final(self).validation_spec() == old(self).validation_spec(),
    {
        self.consume_counter_on_failure = consume;
    }
}

impl Default for ReceiverOptions {
    /// AES-256-GCM with HKDF-SHA-512, and replay protection with tolerance 128.
    fn default() -> (r: Self)
        ensures
            r.wf(),
            r.cipher_suite_spec() == CipherSuiteVariant::AesGcm256Sha512,
            r.validation_spec() matches FrameValidation::ReplayAttackProtection(p) && {
                &&& p.tolerance_spec() == 128
                &&& p.max_spec() == 0
                &&& p.seen_spec() == Set::<u64>::empty()
            },
            r.consumes_on_failure(),
    {
        ReceiverOptions {
            cipher_suite: CipherSuiteVariant::AesGcm256Sha512,
            frame_validation: FrameValidation::ReplayAttackProtection(
                ReplayAttackProtection::with_tolerance(128),
            ),
            consume_counter_on_failure: true,
        }
    }
}

/// Decrypts frames with the secrets stored per key id.
pub struct Receiver {
    secrets: HashMap<KeyId, Secret>,
    options: ReceiverOptions,
}

impl Default for Receiver {
    /// A receiver with no keys and the default options.
    fn default() -> (r: Self)
        ensures
            r.wf(),
            r.secrets_spec() == Map::<KeyId, Secret>::empty(),
            r.cipher_suite_spec() == CipherSuiteVariant::AesGcm256Sha512,
            r.validation_spec() matches FrameValidation::ReplayAttackProtection(p) && {
                &&& p.tolerance_spec() == 128
                &&& p.max_spec() == 0
                &&& p.seen_spec() == Set::<u64>::empty()
            },
            r.consumes_on_failure(),
    {
        Receiver { secrets: HashMap::new(), options: ReceiverOptions::default() }
    }
}

impl Receiver {
    /// The stored secrets by key id.
    pub closed spec fn secrets_spec(&self) -> Map<KeyId, Secret> {
        self.secrets@
    }

    pub closed spec fn cipher_suite_spec(&self) -> CipherSuiteVariant {
        self.options.cipher_suite
    }

    pub closed spec fn validation_spec(&self) -> FrameValidation {
        self.options.frame_validation
    }

    /// Whether a frame that passes validation but fails decryption still
    /// consumes its frame counter.
    pub closed spec fn consumes_on_failure(&self) -> bool {
        self.options.consume_counter_on_failure
    }

    pub open spec fn wf(&self) -> bool {
        &&& self.validation_spec().wf()
        &&& forall|id: KeyId| #[trigger]
            self.secrets_spec().contains_key(id) ==> self.secrets_spec()[id].fits(
                self.cipher_suite_spec(),
            )
    }

    /// What decrypting `frame` gives once its header `h`, which starts at
    /// offset `skip`, has passed validation: the secret of `h`'s key id opens
    /// the bytes after the header, with the header bytes as associated data,
    /// and the plaintext follows the first `skip` bytes.
    pub open spec fn open_frame(&self, frame: Seq<u8>, skip: int, h: Header) -> Result<
        Seq<u8>,
        SframeError,
    > {
        if !self.secrets_spec().contains_key(h.key_id) {
            Err(SframeError::MissingDecryptionKey(h.key_id))
        } else {
            let s = self.secrets_spec()[h.key_id];
            let end = skip + h.size;
            match self.cipher_suite_spec().open(
                s.key_spec(),
                nonce_of(s.salt_spec(), h.frame_counter),
                frame.subrange(skip, end),
                frame.subrange(end, frame.len() as int),
            ) {
                Some(p) => Ok(frame.subrange(0, skip) + p),
                None => Err(SframeError::DecryptionFailure),
            }
        }
    }

    /// What decrypting `frame` with `skip` pass-through bytes gives in this state.
    pub open spec fn decrypt_outcome(&self, frame: Seq<u8>, skip: int) -> Result<
        Seq<u8>,
        SframeError,
    > {
        match header_at(frame, skip) {
            None => Err(SframeError::MalformedHeader),
            Some(h) => if !self.validation_spec().accepts(h.frame_counter) {
                Err(SframeError::FrameValidationFailed)
            } else {
                self.open_frame(frame, skip, h)
            },
        }
    }

    /// A receiver with no keys and the given options.
    pub fn with_options(options: ReceiverOptions) -> (r: Self)
        requires
            options.wf(),
        ensures
            r.wf(),
            r.secrets_spec() == Map::<KeyId, Secret>::empty(),
            r.cipher_suite_spec() == options.cipher_suite_spec(),
            r.validation_spec() == options.validation_spec(),
            r.consumes_on_failure() == options.consumes_on_failure(),
    {
        Receiver { secrets: HashMap::new(), options }
    }

    /// Decrypts `encrypted_frame`, whose first `skip` bytes pass through
    /// unchanged and are followed by the header, the ciphertext and the tag.
    ///
    /// The header is validated before the key is looked up. A counter that
    /// passes validation is recorded when the frame decrypts, and also when it
    /// does not unless the options say otherwise.
    pub fn decrypt(&mut self, encrypted_frame: &[u8], skip: usize) -> (r: Result<
        Vec<u8>,
        SframeError,
    >)
        requires
            old(self).wf(),
        ensures
            final(self).wf(),
            final(self).secrets_spec() == old(self).secrets_spec(),
            final(self).cipher_suite_spec() == old(self).cipher_suite_spec(),
            final(self).consumes_on_failure() == old(self).consumes_on_failure(),
            match r {
                Ok(v) => old(self).decrypt_outcome(encrypted_frame@, skip as int) == Ok::<
                    Seq<u8>,
                    SframeError,
                >(v@),
                Err(e) => old(self).decrypt_outcome(encrypted_frame@, skip as int) == Err::<
                    Seq<u8>,
                    SframeError,
                >(e),
            },
            match header_at(encrypted_frame@, skip as int) {
                Some(h) => if old(self).validation_spec().accepts(h.frame_counter) && (old(
                    self,
                ).consumes_on_failure() || r is Ok) {
                    old(self).validation_spec().recorded(
                        &final(self).validation_spec(),
                        h.frame_counter,
                    )
                } else {
                    old(self).validation_spec().same_state(&final(self).validation_spec())
                },
                None => old(self).validation_spec().same_state(&final(self).validation_spec()),
            },
    {
        proof {
            lemma_same_state_refl(self.options.frame_validation);
        }
        let header = match Header::deserialize_at(encrypted_frame, skip) {
            Ok(h) => h,
            Err(e) => {
                return Err(e);
            },
        };
        match self.options.frame_validation.check(&header) {
            Ok(()) => {},
            Err(e) => {
                return Err(e);
            },
        }
        let consume = self.options.consume_counter_on_failure;
        if consume {
            self.options.frame_validation.record(&header);
        }
        let result = self.open_with_header(encrypted_frame, skip, &header);
        if !consume && result.is_ok() {
            self.options.frame_validation.record(&header);
        }
        result
    }

    /// Decrypts `encrypted_frame` whose header, at offset `skip`, is `header`.
    fn open_with_header(&self, encrypted_frame: &[u8], skip: usize, header: &Header) -> (r:
        Result<Vec<u8>, SframeError>)
        requires
            self.wf(),
            header_at(encrypted_frame@, skip as int) == Some(*header),
        ensures
            match r {
                Ok(v) => self.open_frame(encrypted_frame@, skip as int, *header) == Ok::<
                    Seq<u8>,
                    SframeError,
                >(v@),
                Err(e) => self.open_frame(encrypted_frame@, skip as int, *header) == Err::<
                    Seq<u8>,
                    SframeError,
                >(e),
            },
    {
        let key_id = header.key_id;
        match self.secrets.get(&key_id) {
            Some(secret) => {
                let n = encrypted_frame.len();
                proof {
                    let rest = encrypted_frame@.subrange(skip as int, encrypted_frame@.len() as int);
                    assert(parse_header(rest) == Some(*header));
                    assert(header.size <= rest.len());
                }
                let begin = skip + header.size;
                let aad = copy_range(encrypted_frame, skip, begin);
                let msg = copy_range(encrypted_frame, begin, encrypted_frame.len());
                match self.options.cipher_suite.decrypt(
                    secret,
                    aad.as_slice(),
                    msg.as_slice(),
                    header.frame_counter,
                ) {
                    Ok(plain) => {
                        let mut out: Vec<u8> = Vec::new();
                        append_range(&mut out, encrypted_frame, 0, skip);
                        append_range(&mut out, plain.as_slice(), 0, plain.len());
                        proof {
                            assert(plain@.subrange(0, plain@.len() as int) =~= plain@);
                            assert(Seq::<u8>::empty() + encrypted_frame@.subrange(0, skip as int)
                                =~= encrypted_frame@.subrange(0, skip as int));
                        }
                        Ok(out)
                    },
                    Err(e) => Err(e),
                }
            },
            None => Err(SframeError::MissingDecryptionKey(key_id)),
        }
    }

    /// Derives a secret from `key_material` and stores it for `receiver_id`,
    /// replacing the one stored before.
    pub fn set_encryption_key(&mut self, receiver_id: u64, key_material: &[u8]) -> (r: Result<
        (),
        SframeError,
    >)
        requires
            old(self).wf(),
        ensures
            r == Ok::<(), SframeError>(()),
            final(self).wf(),
            final(self).secrets_spec() == old(self).secrets_spec().insert(
                receiver_id,
                final(self).secrets_spec()[receiver_id],
            ),
            final(self).secrets_spec()[receiver_id].key_spec()
                == old(self).cipher_suite_spec().secret_key(key_material@),
            final(self).secrets_spec()[receiver_id].salt_spec()
                == old(self).cipher_suite_spec().secret_salt(key_material@),
            final(self).cipher_suite_spec() == old(self).cipher_suite_spec(),
            final(self).validation_spec() == old(self).validation_spec(),
            final(self).consumes_on_failure() == old(self).consumes_on_failure(),
    {
        match self.options.cipher_suite.expand_as_secret(key_material) {
            Ok(secret) => {
                let ghost before = self.secrets@;
                self.secrets.insert(receiver_id, secret);
                proof {
                    assert(self.secrets@ == before.insert(receiver_id, secret));
                    assert forall|id: KeyId| #[trigger]
                        self.secrets_spec().contains_key(id) implies self.secrets_spec()[id].fits(
                        self.cipher_suite_spec(),
                    ) by {
                        if id != receiver_id {
                            assert(old(self).secrets_spec().contains_key(id));
                            assert(old(self).secrets_spec()[id].fits(old(self).cipher_suite_spec()));
                        }
                    }
                }
                Ok(())
            },
            Err(e) => Err(e),
        }
    }

    /// Removes the secret of `receiver_id`; tells whether there was one.
    pub fn remove_encryption_key(&mut self, receiver_id: u64) -> (r: bool)
        requires
            old(self).wf(),
        ensures
            r == old(self).secrets_spec().contains_key(receiver_id),
            final(self).wf(),
            final(self).secrets_spec() == old(self).secrets_spec().remove(receiver_id),
            final(self).cipher_suite_spec() == old(self).cipher_suite_spec(),
            final(self).validation_spec() == old(self).validation_spec(),
            final(self).consumes_on_failure() == old(self).consumes_on_failure(),
    {
        self.secrets.remove(&receiver_id).is_some()
    }
}

/// Decrypting recovers the plaintext: when the frame is `prefix`, then a
/// complete header `hdr`, then `ct`, the header passes validation, its key id
/// has a secret, and that secret opens `ct` under the header bytes to `pt`,
/// decrypting with `skip` set to the prefix length returns `prefix` followed by `pt`.
pub proof fn lemma_decrypt_recovers(
    rx: Receiver,
    prefix: Seq<u8>,
    hdr: Seq<u8>,
    ct: Seq<u8>,
    pt: Seq<u8>,
)
    requires
        parse_header(hdr + ct) matches Some(h) && {
            &&& h.size == hdr.len()
            &&& rx.validation_spec().accepts(h.frame_counter)
            &&& rx.secrets_spec().contains_key(h.key_id)
            &&& rx.cipher_suite_spec().open(
                rx.secrets_spec()[h.key_id].key_spec(),
                nonce_of(rx.secrets_spec()[h.key_id].salt_spec(), h.frame_counter),
                hdr,
                ct,
            ) == Some(pt)
        },
    ensures
        rx.decrypt_outcome(prefix + hdr + ct, prefix.len() as int) == Ok::<Seq<u8>, SframeError>(
            prefix + pt,
        ),
{
    let frame = prefix + hdr + ct;
    let k = prefix.len() as int;
    let h = parse_header(hdr + ct)->Some_0;
    assert(frame.subrange(k, frame.len() as int) =~= hdr + ct);
    assert(frame.subrange(k, k + h.size) =~= hdr);
    assert(frame.subrange(k + h.size, frame.len() as int) =~= ct);
    assert(frame.subrange(0, k) =~= prefix);
}

/// A frame whose key id has no secret: once its header passes validation,
/// decrypting it fails with the missing-key error for exactly that key id.
pub proof fn lemma_unknown_key(rx: Receiver, frame: Seq<u8>, skip: int)
    requires
        header_at(frame, skip) matches Some(h) && !rx.secrets_spec().contains_key(h.key_id)
            && rx.validation_spec().accepts(h.frame_counter),
    ensures
        rx.decrypt_outcome(frame, skip) == Err::<Seq<u8>, SframeError>(
            SframeError::MissingDecryptionKey(header_at(frame, skip)->Some_0.key_id),
        ),
{
}

/// Key lifecycle: after a key is set for `id` (state `r1`, from `r0`) it is
/// present, so removing it reports `true`; after that removal (state `r2`) it
/// is absent, so a second removal reports `false`.
pub proof fn lemma_key_lifecycle(r0: Receiver, r1: Receiver, r2: Receiver, id: KeyId)
    requires
        r1.secrets_spec() == r0.secrets_spec().insert(id, r1.secrets_spec()[id]),
        r2.secrets_spec() == r1.secrets_spec().remove(id),
    ensures
        r1.secrets_spec().contains_key(id),
        !r2.secrets_spec().contains_key(id),
        r2.secrets_spec() == r0.secrets_spec().remove(id),
{
    assert(r2.secrets_spec() =~= r0.secrets_spec().remove(id));
}

/// Pass-through invariance: the same header, ciphertext and tag `body`
/// behind two different pass-through prefixes decrypt to the same payload
/// behind the respective prefix, or fail with the same error.
pub proof fn lemma_skip_invariance(
    rx: Receiver,
    prefix_a: Seq<u8>,
    prefix_b: Seq<u8>,
    body: Seq<u8>,
)
    ensures
        match (
            rx.decrypt_outcome(prefix_a + body, prefix_a.len() as int),
            rx.decrypt_outcome(prefix_b + body, prefix_b.len() as int),
        ) {
            (Ok(a), Ok(b)) => {
                &&& a.subrange(0, prefix_a.len() as int) == prefix_a
                &&& b.subrange(0, prefix_b.len() as int) == prefix_b
                &&& a.subrange(prefix_a.len() as int, a.len() as int) == b.subrange(
                    prefix_b.len() as int,
                    b.len() as int,
                )
            },
            (Err(e1), Err(e2)) => e1 == e2,
            _ => false,
        },
{
    let f1 = prefix_a + body;
    let f2 = prefix_b + body;
    let k1 = prefix_a.len() as int;
    let k2 = prefix_b.len() as int;
    assert(f1.subrange(k1, f1.len() as int) =~= body);
    assert(f2.subrange(k2, f2.len() as int) =~= body);
    assert(f1.subrange(0, k1) =~= prefix_a);
    assert(f2.subrange(0, k2) =~= prefix_b);
    if let Some(h) = parse_header(body) {
        if h.size <= body.len() {
            assert(f1.subrange(k1, k1 + h.size) =~= body.subrange(0, h.size as int));
            assert(f2.subrange(k2, k2 + h.size) =~= body.subrange(0, h.size as int));
            assert(f1.subrange(k1 + h.size, f1.len() as int) =~= body.subrange(
                h.size as int,
                body.len() as int,
            ));
            assert(f2.subrange(k2 + h.size, f2.len() as int) =~= body.subrange(
                h.size as int,
                body.len() as int,
            ));
        }
        match rx.decrypt_outcome(f1, k1) {
            Ok(a) => {
                let p = a.subrange(k1, a.len() as int);
                assert(a =~= prefix_a + p);
                assert(a.subrange(0, k1) =~= prefix_a);
                let b = rx.decrypt_outcome(f2, k2)->Ok_0;
                assert(b =~= prefix_b + p);
                assert(b.subrange(0, k2) =~= prefix_b);
                assert(b.subrange(k2, b.len() as int) =~= p);
            },
            Err(_) => {},
        }
    }
}

proof fn lemma_same_state_refl(v: FrameValidation)
    ensures
        v.same_state(&v),
{
}

} // verus!
