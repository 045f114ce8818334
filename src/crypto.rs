use vstd::prelude::*;
use nostr::key::{Keys, PublicKey, SecretKey};
use crate::error::TransportError;

verus! {

/// Length of a private key and of an x-only public key, in bytes.
pub const KEY_LEN: usize = 32;

/// The x-only public key of the secp256k1 private key `secret`, or `None`
/// when `secret` is not a valid private key.
pub uninterp spec fn derived_public_key(secret: Seq<u8>) -> Option<Seq<u8>>;

/// What NIP-04 encryption of `plaintext` from `secret` to `recipient` with
/// the IV `iv` gives, or `None` when it fails.
pub uninterp spec fn nip04_sealed(secret: Seq<u8>, recipient: Seq<u8>, plaintext: Seq<u8>, iv: Seq<
    u8,
>) -> Option<Seq<u8>>;

/// What NIP-04 decryption of `ciphertext` with `secret` and the sender's
/// public key `sender` gives, or `None` when it fails.
pub uninterp spec fn nip04_opened(secret: Seq<u8>, sender: Seq<u8>, ciphertext: Seq<u8>) -> Option<
    Seq<u8>,
>;

/// Relies on nostr's `SecretKey::from_slice` and `Keys::new(..).public_key()`:
/// the x-only public key of a valid private key, 32 bytes long.
#[verifier::external_body]
fn public_key_of(secret: &Vec<u8>) -> (r: Result<Vec<u8>, TransportError>)
    ensures
        match r {
            Ok(p) => derived_public_key(secret@) == Some(p@) && p@.len() == KEY_LEN,
            Err(e) => derived_public_key(secret@) is None && e == TransportError::CorruptKeyMaterial,
        },
{
    let sk = SecretKey::from_slice(secret).map_err(|_| TransportError::CorruptKeyMaterial)?;
    Ok(Keys::new(sk).public_key().to_bytes().to_vec())
}

/// Relies on nostr's `SecretKey::generate`: a private key drawn from the
/// operating system's secure random source, as its 32 bytes; it draws again
/// until the key is valid.
#[verifier::external_body]
fn fresh_secret_key() -> (r: Vec<u8>)
    ensures
        r@.len() == KEY_LEN,
        derived_public_key(r@) is Some,
{
    SecretKey::generate().to_secret_bytes().to_vec()
}

/// Relies on nostr's `nip04::encrypt_with_iv`: AES-256-CBC under the x-only
/// shared secret of `secret` and `recipient`, with the IV given, as base64
/// text followed by `?iv=` and the IV. It fails only on a key that is not
/// valid, and the recipient opens it with its own private key and the
/// sender's public key.
#[verifier::external_body]
fn nip04_seal(secret: &Vec<u8>, recipient: &Vec<u8>, plaintext: &Vec<u8>, iv: [u8; 16]) -> (r:
    Result<Vec<u8>, TransportError>)
    ensures
        match r {
            Ok(c) => nip04_sealed(secret@, recipient@, plaintext@, iv@) == Some(c@),
            Err(e) => nip04_sealed(secret@, recipient@, plaintext@, iv@) is None && e
                == TransportError::MalformedPayload,
        },
        r is Ok || derived_public_key(secret@) is None || forall|sk: Seq<u8>|
            #[trigger] derived_public_key(sk) != Some(recipient@),
        r matches Ok(c) ==> forall|sk: Seq<u8>|
            #[trigger] derived_public_key(sk) == Some(recipient@) ==> (derived_public_key(
                secret@,
            ) matches Some(pk) ==> nip04_opened(sk, pk, c@) == Some(plaintext@)),
{
    let sk = SecretKey::from_slice(secret).map_err(|_| TransportError::MalformedPayload)?;
    let pk = PublicKey::from_slice(recipient).map_err(|_| TransportError::MalformedPayload)?;
    let text = nostr::nips::nip04::encrypt_with_iv(&sk, &pk, plaintext, iv).map_err(
        |_| TransportError::MalformedPayload,
    )?;
    Ok(text.into_bytes())
}

/// Relies on nostr's `nip04::decrypt_to_bytes`: the plaintext of a NIP-04
/// ciphertext under the shared secret of `secret` and `sender`; it depends on
/// its arguments alone.
#[verifier::external_body]
fn nip04_open(secret: &Vec<u8>, sender: &Vec<u8>, ciphertext: &Vec<u8>) -> (r: Result<
    Vec<u8>,
    TransportError,
>)
    ensures
        match r {
            Ok(p) => nip04_opened(secret@, sender@, ciphertext@) == Some(p@),
            Err(e) => nip04_opened(secret@, sender@, ciphertext@) is None && e
                == TransportError::DecryptionFailed,
        },
{
    let sk = SecretKey::from_slice(secret).map_err(|_| TransportError::DecryptionFailed)?;
    let pk = PublicKey::from_slice(sender).map_err(|_| TransportError::DecryptionFailed)?;
    let text = String::from_utf8(ciphertext.clone()).map_err(|_| TransportError::DecryptionFailed)?;
    nostr::nips::nip04::decrypt_to_bytes(&sk, &pk, text).map_err(|_| TransportError::DecryptionFailed)
}

/// The long-term keypair of this transport.
pub struct Identity {
    /// The 32-byte private key.
    pub secret: Vec<u8>,
    /// The 32-byte x-only public key; the network address of this party.
    pub public: Vec<u8>,
}

impl Identity {
    /// The public key is the one derived from the private key.
    pub open spec fn wf(&self) -> bool {
        derived_public_key(self.secret@) == Some(self.public@)
    }

    /// The identity held by the stored private key `stored`.
    pub fn from_secret(stored: &Vec<u8>) -> (r: Result<Identity, TransportError>)
        ensures
            match r {
                Ok(id) => id.wf() && id.secret@ == stored@,
                Err(e) => derived_public_key(stored@) is None && e
                    == TransportError::CorruptKeyMaterial,
            },
    {
        let public = public_key_of(stored)?;
        let mut secret: Vec<u8> = Vec::new();
        crate::bytes::push_range(&mut secret, stored, 0, stored.len());
        assert(stored@.subrange(0, stored.len() as int) =~= stored@);
        Ok(Identity { secret, public })
    }

    /// Loads the identity from stored key material, or creates a fresh one
    /// when there is none. The flag tells whether the key is new and has to
    /// be written to storage.
    pub fn load_or_create(stored: Option<&Vec<u8>>) -> (r: Result<(Identity, bool), TransportError>)
        ensures
            match stored {
                Some(b) => match r {
                    Ok((id, created)) => id.wf() && id.secret@ == b@ && !created,
                    Err(e) => derived_public_key(b@) is None && e
                        == TransportError::CorruptKeyMaterial,
                },
                None => r matches Ok((id, created)) && id.wf() && id.secret@.len() == KEY_LEN
                    && created,
            },
    {
        match stored {
            Some(b) => {
                let id = Identity::from_secret(b)?;
                Ok((id, false))
            },
            None => {
                let secret = fresh_secret_key();
                let id = Identity::from_secret(&secret)?;
                Ok((id, true))
            },
        }
    }

    /// Encrypts `plaintext` for `recipient` under the fresh IV `iv`.
    pub fn encrypt_for(&self, recipient: &Vec<u8>, plaintext: &Vec<u8>, iv: [u8; 16]) -> (r: Result<
        Vec<u8>,
        TransportError,
    >)
        ensures
            match r {
                Ok(c) => nip04_sealed(self.secret@, recipient@, plaintext@, iv@) == Some(c@),
                Err(e) => nip04_sealed(self.secret@, recipient@, plaintext@, iv@) is None && e
                    == TransportError::MalformedPayload,
            },
            r is Ok || derived_public_key(self.secret@) is None || forall|sk: Seq<u8>|
                #[trigger] derived_public_key(sk) != Some(recipient@),
            r matches Ok(c) ==> forall|sk: Seq<u8>|
                #[trigger] derived_public_key(sk) == Some(recipient@) ==> (derived_public_key(
                    self.secret@,
                ) matches Some(pk) ==> nip04_opened(sk, pk, c@) == Some(plaintext@)),
    {
        nip04_seal(&self.secret, recipient, plaintext, iv)
    }

    /// Decrypts a ciphertext that `sender` sealed for this identity.
    pub fn decrypt_from(&self, sender: &Vec<u8>, ciphertext: &Vec<u8>) -> (r: Result<
        Vec<u8>,
        TransportError,
    >)
        ensures
            match r {
                Ok(p) => nip04_opened(self.secret@, sender@, ciphertext@) == Some(p@),
                Err(e) => nip04_opened(self.secret@, sender@, ciphertext@) is None && e
                    == TransportError::DecryptionFailed,
            },
    {
        nip04_open(&self.secret, sender, ciphertext)
    }
}

} // verus!
