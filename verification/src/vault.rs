//! The token vault: authenticated symmetric encryption of short secret
//! strings with a locally persisted 256-bit key.
//!
//! A ciphertext blob is base64 text of `nonce || ciphertext-with-tag`,
//! produced by AES-256-GCM under a fresh random 96-bit nonce per call.

use vstd::prelude::*;
use vstd::utf8::decode_utf8;
use vstd::utf8::encode_utf8;
use vstd::utf8::encode_utf8_decode_utf8;
use vstd::utf8::encode_utf8_valid_utf8;
use vstd::utf8::valid_utf8;

use crate::encoding::b64_decode;
use crate::encoding::b64_encode;
use crate::encoding::b64_of;
use crate::encoding::bytes_of_hex;
use crate::encoding::hex_decode;
use crate::encoding::hex_encode;
use crate::encoding::hex_of;
use crate::encoding::is_hex_seq;
use crate::encoding::string_from_utf8;
use crate::errors::VaultError;

verus! {

/// Byte length of a vault key.
pub const KEY_SIZE: usize = 32;

/// Byte length of a cipher nonce.
pub const NONCE_SIZE: usize = 12;

/// Byte length of the authentication tag the cipher appends.
pub const TAG_SIZE: usize = 16;

#[verifier::external_type_specification]
#[verifier::external_body]
pub struct ExSystemRandom(ring::rand::SystemRandom);

/// Relies on ring's SystemRandom::new: a handle on the system's secure
/// random generator.
#[verifier::external_body]
fn new_system_random() -> ring::rand::SystemRandom {
    ring::rand::SystemRandom::new()
}

/// Relies on ring's SecureRandom::fill: on success the buffer keeps its
/// length, its contents drawn from the system's secure generator; nothing
/// further can be said of them.
#[verifier::external_body]
fn fill_random(rng: &ring::rand::SystemRandom, buf: &mut Vec<u8>) -> (r: Result<(), ()>)
    ensures
        r is Ok ==> final(buf)@.len() == old(buf)@.len(),
{
    match ring::rand::SecureRandom::fill(rng, buf.as_mut_slice()) {
        Ok(()) => Ok(()),
        Err(_) => Err(()),
    }
}

/// What AES-256-GCM sealing produces for the given key, nonce and message:
/// the ciphertext with the 16-byte authentication tag appended.
pub uninterp spec fn gcm_seal(key: Seq<u8>, nonce: Seq<u8>, msg: Seq<u8>) -> Seq<u8>;

/// Relies on ring's AES-256-GCM sealing (UnboundKey::new, LessSafeKey::new,
/// Nonce::try_assume_unique_for_key, seal_in_place_append_tag): on success
/// the result is the sealed output for exactly this key, nonce and message
/// — the ciphertext, message-length, with the 16-byte tag appended.
#[verifier::external_body]
fn aead_seal(key: &Vec<u8>, nonce: &Vec<u8>, msg: Vec<u8>) -> (r: Result<Vec<u8>, ()>)
    requires
        key@.len() == KEY_SIZE,
        nonce@.len() == NONCE_SIZE,
    ensures
        r matches Ok(c) ==> c@ == gcm_seal(key@, nonce@, msg@) && c@.len() == msg@.len()
            + TAG_SIZE,
{
    let unbound = match ring::aead::UnboundKey::new(&ring::aead::AES_256_GCM, key) {
        Ok(u) => u,
        Err(_) => return Err(()),
    };
    let sealing = ring::aead::LessSafeKey::new(unbound);
    let n = match ring::aead::Nonce::try_assume_unique_for_key(nonce) {
        Ok(n) => n,
        Err(_) => return Err(()),
    };
    let mut in_out = msg;
    match sealing.seal_in_place_append_tag(n, ring::aead::Aad::empty(), &mut in_out) {
        Ok(()) => Ok(in_out),
        Err(_) => Err(()),
    }
}

/// Relies on ring's AES-256-GCM opening (open_in_place), the inverse of
/// sealing: it succeeds exactly on sealed outputs for this key and nonce,
/// and then returns the one message whose sealing is the input; an
/// authentication-tag mismatch or malformed input fails.
#[verifier::external_body]
fn aead_open(key: &Vec<u8>, nonce: &Vec<u8>, sealed: Vec<u8>) -> (r: Result<Vec<u8>, ()>)
    requires
        key@.len() == KEY_SIZE,
        nonce@.len() == NONCE_SIZE,
    ensures
        r matches Ok(m) ==> sealed@ == gcm_seal(key@, nonce@, m@) && sealed@.len() == m@.len()
            + TAG_SIZE && (forall|m2: Seq<u8>| gcm_seal(key@, nonce@, m2) == sealed@ ==> m2 == m@),
        r is Err ==> forall|m2: Seq<u8>| gcm_seal(key@, nonce@, m2) != sealed@,
{
    let unbound = match ring::aead::UnboundKey::new(&ring::aead::AES_256_GCM, key) {
        Ok(u) => u,
        Err(_) => return Err(()),
    };
    let opening = ring::aead::LessSafeKey::new(unbound);
    let n = match ring::aead::Nonce::try_assume_unique_for_key(nonce) {
        Ok(n) => n,
        Err(_) => return Err(()),
    };
    let mut in_out = sealed;
    match opening.open_in_place(n, ring::aead::Aad::empty(), &mut in_out) {
        Ok(plain) => Ok(plain.to_vec()),
        Err(_) => Err(()),
    }
}

/// The blob structure `encrypt` emits: base64 text of the 12-byte nonce,
/// then the sealed bytes — message-length ciphertext with the 16-byte tag
/// appended — under the given key, for message bytes `msg`.
pub open spec fn blob_encodes(key: Seq<u8>, nonce: Seq<u8>, msg: Seq<u8>, blob: Seq<char>) -> bool {
    &&& nonce.len() == NONCE_SIZE
    &&& gcm_seal(key, nonce, msg).len() == msg.len() + TAG_SIZE
    &&& blob == b64_of(nonce + gcm_seal(key, nonce, msg))
}

/// True when `blob` is an encryption of plaintext `p` under `key`, for some
/// nonce.
pub open spec fn decryption_of(key: Seq<u8>, blob: Seq<char>, p: Seq<char>) -> bool {
    exists|n: Seq<u8>| blob_encodes(key, n, encode_utf8(p), blob)
}

/// True when `blob` is a well-formed sealed package under `key` whose
/// recovered payload is not valid text: the one case `decrypt` answers
/// with its encoding failure.
pub open spec fn undecodable_payload(key: Seq<u8>, blob: Seq<char>) -> bool {
    exists|n: Seq<u8>, m: Seq<u8>| blob_encodes(key, n, m, blob) && !valid_utf8(m)
}

/// Authenticated encryption and decryption of secret strings under one
/// locally held key.
pub struct TokenEncryption {
    key: Vec<u8>,
    random: ring::rand::SystemRandom,
}

impl TokenEncryption {
    /// The vault's symmetric key.
    pub closed spec fn key(&self) -> Seq<u8> {
        self.key@
    }

    /// A vault is well formed when its key has the full 256 bits.
    pub open spec fn wf(&self) -> bool {
        self.key().len() == KEY_SIZE
    }

    /// A vault over the given 256-bit key; any other key length is a
    /// malformed key.
    pub fn from_key(key: Vec<u8>) -> (r: Result<TokenEncryption, VaultError>)
        ensures
            match r {
                Ok(v) => key@.len() == KEY_SIZE && v.wf() && v.key() == key@,
                Err(e) => key@.len() != KEY_SIZE && e == VaultError::KeyFormat,
            },
    {
        if key.len() != KEY_SIZE {
            return Err(VaultError::KeyFormat);
        }
        Ok(TokenEncryption { key, random: new_system_random() })
    }

    /// A fresh 256-bit key drawn from the system's secure generator.
    pub fn generate_key() -> (r: Result<Vec<u8>, VaultError>)
        ensures
            r matches Ok(k) ==> k@.len() == KEY_SIZE,
    {
        let rng = new_system_random();
        let mut key: Vec<u8> = vec![0u8; KEY_SIZE];
        match fill_random(&rng, &mut key) {
            Ok(()) => Ok(key),
            Err(()) => Err(VaultError::KeyIo),
        }
    }

    /// Key bytes from the hex text of a persisted key file; rejects
    /// anything but well-formed hex of the expected length.
    pub fn key_from_hex(text: &str) -> (r: Result<Vec<u8>, VaultError>)
        ensures
            match r {
                Ok(k) => is_hex_seq(text@) && k@ == bytes_of_hex(text@) && k@.len() == KEY_SIZE,
                Err(e) => (!is_hex_seq(text@) || bytes_of_hex(text@).len() != KEY_SIZE) && e
                    == VaultError::KeyFormat,
            },
    {
        let bytes = match hex_decode(text) {
            Ok(b) => b,
            Err(e) => {
                return Err(e);
            },
        };
        if bytes.len() != KEY_SIZE {
            return Err(VaultError::KeyFormat);
        }
        Ok(bytes)
    }

    /// Hex text of a key, as persisted in the key file.
    pub fn key_to_hex(key: &Vec<u8>) -> (r: String)
        ensures
            r@ == hex_of(key@),
    {
        hex_encode(key)
    }

    /// Authenticated encryption of a secret string: a fresh random nonce,
    /// AES-256-GCM sealing, then base64 text of nonce-then-ciphertext.
    /// Whatever blob comes back is an encryption of exactly the given
    /// plaintext under this vault's key.
    pub fn encrypt(&self, plaintext: &str) -> (r: Result<String, VaultError>)
        requires
            self.wf(),
        ensures
            r matches Ok(blob) ==> decryption_of(self.key(), blob@, plaintext@),
            r matches Err(e) ==> e == VaultError::Encryption,
    {
        let mut nonce: Vec<u8> = vec![0u8; NONCE_SIZE];
        if fill_random(&self.random, &mut nonce).is_err() {
            return Err(VaultError::Encryption);
        }
        let msg = vstd::string::StrSliceExecFns::as_bytes_vec(plaintext);
        let mut sealed = match aead_seal(&self.key, &nonce, msg) {
            Ok(c) => c,
            Err(()) => {
                return Err(VaultError::Encryption);
            },
        };
        let ghost nonce_seq = nonce@;
        let ghost sealed_seq = sealed@;
        let mut data = nonce;
        data.append(&mut sealed);
        proof {
            assert(data@ == nonce_seq + sealed_seq);
        }
        let blob = b64_encode(&data);
        proof {
            assert(blob_encodes(self.key(), nonce_seq, encode_utf8(plaintext@), blob@));
        }
        Ok(blob)
    }

    /// Authenticated decryption of a blob from `encrypt`: returns the one
    /// plaintext the blob encrypts, and fails exactly when the blob is no
    /// encryption under this vault's key — tampering is rejected, and a
    /// wrong plaintext is never returned. A blob whose decoded bytes are
    /// shorter than a nonce is malformed ciphertext; a genuine package
    /// whose recovered payload is not valid text is an encoding failure.
    pub fn decrypt(&self, blob: &str) -> (r: Result<String, VaultError>)
        requires
            self.wf(),
        ensures
            r matches Ok(p) ==> decryption_of(self.key(), blob@, p@) && (forall|p2: Seq<char>|
                decryption_of(self.key(), blob@, p2) ==> p2 == p@),
            r is Err ==> forall|p2: Seq<char>| !decryption_of(self.key(), blob@, p2),
            r matches Err(e) ==> (e == VaultError::Decryption || e == VaultError::InvalidCiphertext
                || e == VaultError::Encoding),
            (exists|d: Seq<u8>| blob@ == b64_of(d) && d.len() < NONCE_SIZE) <==> (r matches Err(e)
                && e == VaultError::InvalidCiphertext),
            undecodable_payload(self.key(), blob@) <==> (r matches Err(e) && e
                == VaultError::Encoding),
    {
        broadcast use encode_utf8_valid_utf8, encode_utf8_decode_utf8;

        let mut data = match b64_decode(blob) {
            Ok(d) => d,
            Err(_) => {
                // Not base64 at all: no package of any shape decodes it.
                proof {
                    assert forall|n: Seq<u8>, m: Seq<u8>|
                        !blob_encodes(self.key(), n, m, blob@) by {
                        if blob_encodes(self.key(), n, m, blob@) {
                            assert(b64_of(n + gcm_seal(self.key(), n, m)) == blob@);
                        }
                    }
                    assert forall|p2: Seq<char>| !decryption_of(self.key(), blob@, p2) by {
                        if decryption_of(self.key(), blob@, p2) {
                            let n = choose|n: Seq<u8>|
                                blob_encodes(self.key(), n, encode_utf8(p2), blob@);
                            assert(!blob_encodes(self.key(), n, encode_utf8(p2), blob@));
                        }
                    }
                }
                return Err(VaultError::Decryption);
            },
        };
        if data.len() < NONCE_SIZE {
            // Shorter than a nonce: a package always carries 12 + 16 bytes
            // at least, so none decodes to this.
            proof {
                assert forall|n: Seq<u8>, m: Seq<u8>| !blob_encodes(self.key(), n, m, blob@) by {
                    if blob_encodes(self.key(), n, m, blob@) {
                        assert(b64_of(n + gcm_seal(self.key(), n, m)) == blob@);
                        assert(n + gcm_seal(self.key(), n, m) == data@);
                        assert(data@.len() >= NONCE_SIZE);
                    }
                }
                assert forall|p2: Seq<char>| !decryption_of(self.key(), blob@, p2) by {
                    if decryption_of(self.key(), blob@, p2) {
                        let n = choose|n: Seq<u8>|
                            blob_encodes(self.key(), n, encode_utf8(p2), blob@);
                        assert(!blob_encodes(self.key(), n, encode_utf8(p2), blob@));
                    }
                }
            }
            return Err(VaultError::InvalidCiphertext);
        }
        let ghost data_pre = data@;
        let sealed = data.split_off(NONCE_SIZE);
        let nonce = data;
        proof {
            assert(nonce@ + sealed@ =~= data_pre);
            assert(nonce@.len() == NONCE_SIZE);
        }
        let opened = match aead_open(&self.key, &nonce, sealed) {
            Ok(m) => m,
            Err(()) => {
                // The tag did not verify: nothing seals to these bytes, so
                // no package of any payload decodes the blob.
                proof {
                    assert forall|n: Seq<u8>, m: Seq<u8>|
                        !blob_encodes(self.key(), n, m, blob@) by {
                        if blob_encodes(self.key(), n, m, blob@) {
                            let whole = n + gcm_seal(self.key(), n, m);
                            assert(b64_of(whole) == blob@);
                            assert(whole == data_pre);
                            assert(whole == nonce@ + sealed@);
                            assert(n =~= whole.take(NONCE_SIZE as int));
                            assert(nonce@ =~= whole.take(NONCE_SIZE as int));
                            assert(gcm_seal(self.key(), n, m) =~= whole.skip(NONCE_SIZE as int));
                            assert(sealed@ =~= whole.skip(NONCE_SIZE as int));
                        }
                    }
                    assert forall|p2: Seq<char>| !decryption_of(self.key(), blob@, p2) by {
                        if decryption_of(self.key(), blob@, p2) {
                            let n = choose|n: Seq<u8>|
                                blob_encodes(self.key(), n, encode_utf8(p2), blob@);
                            assert(!blob_encodes(self.key(), n, encode_utf8(p2), blob@));
                        }
                    }
                }
                return Err(VaultError::Decryption);
            },
        };
        let ghost opened_seq = opened@;
        proof {
            // The tag verified: every package decoding this blob carries
            // exactly the recovered payload.
            assert(blob_encodes(self.key(), nonce@, opened_seq, blob@));
            assert forall|n: Seq<u8>, m: Seq<u8>|
                blob_encodes(self.key(), n, m, blob@) implies m == opened_seq by {
                let whole = n + gcm_seal(self.key(), n, m);
                assert(b64_of(whole) == blob@);
                assert(whole == data_pre);
                assert(whole == nonce@ + sealed@);
                assert(n =~= whole.take(NONCE_SIZE as int));
                assert(nonce@ =~= whole.take(NONCE_SIZE as int));
                assert(gcm_seal(self.key(), n, m) =~= whole.skip(NONCE_SIZE as int));
                assert(sealed@ =~= whole.skip(NONCE_SIZE as int));
            }
        }
        match string_from_utf8(opened) {
            Ok(p) => {
                proof {
                    assert(opened_seq == encode_utf8(p@));
                    assert(blob_encodes(self.key(), nonce@, encode_utf8(p@), blob@));
                    assert forall|p2: Seq<char>|
                        decryption_of(self.key(), blob@, p2) implies p2 == p@ by {
                        let n = choose|n: Seq<u8>|
                            blob_encodes(self.key(), n, encode_utf8(p2), blob@);
                        assert(encode_utf8(p2) == opened_seq);
                        assert(decode_utf8(encode_utf8(p2)) == decode_utf8(encode_utf8(p@)));
                    }
                    assert(!undecodable_payload(self.key(), blob@)) by {
                        if undecodable_payload(self.key(), blob@) {
                            let (n, m) = choose|n: Seq<u8>, m: Seq<u8>|
                                blob_encodes(self.key(), n, m, blob@) && !valid_utf8(m);
                            assert(m == opened_seq);
                            assert(valid_utf8(opened_seq));
                        }
                    }
                }
                Ok(p)
            },
            Err(_) => {
                proof {
                    assert(!valid_utf8(opened_seq));
                    assert(undecodable_payload(self.key(), blob@));
                    assert forall|p2: Seq<char>| !decryption_of(self.key(), blob@, p2) by {
                        if decryption_of(self.key(), blob@, p2) {
                            let n = choose|n: Seq<u8>|
                                blob_encodes(self.key(), n, encode_utf8(p2), blob@);
                            assert(encode_utf8(p2) == opened_seq);
                            assert(valid_utf8(opened_seq));
                        }
                    }
                }
                Err(VaultError::Encoding)
            },
        }
    }

    /// Round trip: decrypting what `encrypt` produced returns exactly the
    /// original plaintext; it fails only where encryption itself failed.
    pub fn encrypt_then_decrypt(&self, plaintext: &str) -> (r: Result<String, VaultError>)
        requires
            self.wf(),
        ensures
            r matches Ok(p) ==> p@ == plaintext@,
            r matches Err(e) ==> e == VaultError::Encryption,
    {
        let blob = match self.encrypt(plaintext) {
            Ok(b) => b,
            Err(e) => {
                return Err(e);
            },
        };
        match self.decrypt(blob.as_str()) {
            Ok(p) => Ok(p),
            Err(e) => {
                // Unreachable: the blob encrypts the plaintext, and decrypt
                // cannot fail on a blob that encrypts something.
                proof {
                    assert(decryption_of(self.key(), blob@, plaintext@));
                    assert(false);
                }
                Err(e)
            },
        }
    }
}

/// The encryption capability chosen once at startup: a cipher-backed vault,
/// or the degraded plain-text mode used when no key could be set up.
pub enum CredentialVault {
    Cipher(TokenEncryption),
    PlainText,
}

impl CredentialVault {
    pub open spec fn wf(&self) -> bool {
        match self {
            CredentialVault::Cipher(v) => v.wf(),
            CredentialVault::PlainText => true,
        }
    }

    /// What a credential stored for plaintext `secret` looks like: an
    /// encryption of it, or the secret itself in plain-text mode.
    pub open spec fn protects(&self, secret: Seq<char>, stored: Seq<char>) -> bool {
        match self {
            CredentialVault::Cipher(v) => decryption_of(v.key(), stored, secret),
            CredentialVault::PlainText => stored == secret,
        }
    }

    /// What reading a stored credential yields: the plaintext it decrypts
    /// to, or the stored text itself when it decrypts to nothing.
    pub open spec fn exposes(&self, stored: Seq<char>, read: Seq<char>) -> bool {
        match self {
            CredentialVault::Cipher(v) => if exists|p: Seq<char>|
                decryption_of(v.key(), stored, p) {
                decryption_of(v.key(), stored, read)
            } else {
                read == stored
            },
            CredentialVault::PlainText => read == stored,
        }
    }

    /// Encrypts a credential for storage; plain-text mode stores it as
    /// given and cannot fail.
    pub fn protect(&self, secret: &str) -> (r: Result<String, VaultError>)
        requires
            self.wf(),
        ensures
            r matches Ok(stored) ==> self.protects(secret@, stored@),
            self is PlainText ==> r is Ok,
    {
        match self {
            CredentialVault::Cipher(v) => v.encrypt(secret),
            CredentialVault::PlainText => Ok(secret.to_owned()),
        }
    }

    /// The capability the surrounding system runs with: cipher-backed
    /// when key setup succeeded, and otherwise the degraded plain-text
    /// mode, so that a failed vault never aborts startup.
    pub fn from_setup(outcome: Option<TokenEncryption>) -> (r: CredentialVault)
        requires
            outcome matches Some(v) ==> v.wf(),
        ensures
            r.wf(),
            match outcome {
                Some(v) => r == CredentialVault::Cipher(v),
                None => r == CredentialVault::PlainText,
            },
    {
        match outcome {
            Some(v) => CredentialVault::Cipher(v),
            None => CredentialVault::PlainText,
        }
    }

    /// Decrypts a stored credential, handing back the stored text itself
    /// where decryption fails: a corrupt credential stays visible rather
    /// than blocking the read.
    pub fn expose(&self, stored: &str) -> (r: String)
        requires
            self.wf(),
        ensures
            self.exposes(stored@, r@),
    {
        match self {
            CredentialVault::Cipher(v) => match v.decrypt(stored) {
                Ok(p) => p,
                Err(_) => stored.to_owned(),
            },
            CredentialVault::PlainText => stored.to_owned(),
        }
    }
}

} // verus!
