//! The stream ciphers of an encrypted connection: AES-128 in CFB-8 mode,
//! with the shared secret as both the key and the first IV.
//!
//! Each cipher keeps its key and its 16-byte shift register as plain bytes;
//! the `cfb8` crate does the block work on them.
use aes::cipher::inout::InOutBuf;
use aes::cipher::{BlockDecryptMut, BlockEncryptMut, IvState, KeyIvInit};
use aes::Aes128;
use vstd::prelude::*;

verus! {

/// What `cfb8::Encryptor::<Aes128>` makes of `data`, started on `key` with
/// the shift register `iv`.
pub uninterp spec fn cfb8_encrypted(key: Seq<u8>, iv: Seq<u8>, data: Seq<u8>) -> Seq<u8>;

/// What `cfb8::Decryptor::<Aes128>` makes of `data`, started on `key` with
/// the shift register `iv`.
pub uninterp spec fn cfb8_decrypted(key: Seq<u8>, iv: Seq<u8>, data: Seq<u8>) -> Seq<u8>;

/// Runs `cfb8::Encryptor::<Aes128>`, built from `key` and `iv`, over `data`
/// in place, and leaves its `iv_state()` in `iv`.  The crate encrypts one
/// byte per block and shifts each output byte into the register, so the
/// register ends as the last 16 bytes of the old register and the output.
#[verifier::external_body]
fn cfb8_encrypt(key: &[u8; 16], iv: &mut [u8; 16], data: &mut [u8])
    ensures
        final(data)@.len() == old(data)@.len(),
        final(data)@ == cfb8_encrypted(key@, old(iv)@, old(data)@),
        final(iv)@ == (old(iv)@ + final(data)@).skip(old(data)@.len() as int),
{
    let mut cipher = cfb8::Encryptor::<Aes128>::new(key.into(), (&*iv).into());
    let (blocks, _) = InOutBuf::from(data).into_chunks();
    cipher.encrypt_blocks_inout_mut(blocks);
    iv.copy_from_slice(&cipher.iv_state());
}

/// Runs `cfb8::Decryptor::<Aes128>`, built from `key` and `iv`, over `data`
/// in place, and leaves its `iv_state()` in `iv`.  The crate shifts each
/// input byte into the register, and decryption undoes encryption under the
/// same key and register (the crate's documented round trip).
#[verifier::external_body]
fn cfb8_decrypt(key: &[u8; 16], iv: &mut [u8; 16], data: &mut [u8])
    ensures
        final(data)@.len() == old(data)@.len(),
        final(data)@ == cfb8_decrypted(key@, old(iv)@, old(data)@),
        final(iv)@ == (old(iv)@ + old(data)@).skip(old(data)@.len() as int),
        forall|plain: Seq<u8>|
            old(data)@ == #[trigger] cfb8_encrypted(key@, old(iv)@, plain) ==> final(data)@
                == plain,
{
    let mut cipher = cfb8::Decryptor::<Aes128>::new(key.into(), (&*iv).into());
    let (blocks, _) = InOutBuf::from(data).into_chunks();
    cipher.decrypt_blocks_inout_mut(blocks);
    iv.copy_from_slice(&cipher.iv_state());
}

/// Encrypts what the proxy sends on a connection.
pub struct PacketEncryption {
    key: [u8; 16],
    register: [u8; 16],
}

impl PacketEncryption {
    /// The key.
    pub closed spec fn key(&self) -> Seq<u8> {
        self.key@
    }

    /// The shift register: the IV for the next byte.
    pub closed spec fn register(&self) -> Seq<u8> {
        self.register@
    }

    /// A cipher for `key`, which is also its first IV.
    pub fn new(key: &[u8; 16]) -> (r: Self)
        ensures
            r.key() == key@,
            r.register() == key@,
    {
        PacketEncryption { key: *key, register: *key }
    }

    /// Encrypts `data` in place, going on from the bytes encrypted before.
    pub fn encrypt(&mut self, data: &mut [u8])
        ensures
            final(self).key() == old(self).key(),
            final(data)@ == cfb8_encrypted(old(self).key(), old(self).register(), old(data)@),
            final(data)@.len() == old(data)@.len(),
            final(self).register() == (old(self).register() + final(data)@).skip(
                old(data)@.len() as int,
            ),
    {
        cfb8_encrypt(&self.key, &mut self.register, data);
    }
}

/// Decrypts what the proxy receives on a connection.
pub struct PacketDecryption {
    key: [u8; 16],
    register: [u8; 16],
}

impl PacketDecryption {
    /// The key.
    pub closed spec fn key(&self) -> Seq<u8> {
        self.key@
    }

    /// The shift register: the IV for the next byte.
    pub closed spec fn register(&self) -> Seq<u8> {
        self.register@
    }

    /// A cipher for `key`, which is also its first IV.
    pub fn new(key: &[u8; 16]) -> (r: Self)
        ensures
            r.key() == key@,
            r.register() == key@,
    {
        PacketDecryption { key: *key, register: *key }
    }

    /// Decrypts `data` in place, going on from the bytes decrypted before.
    /// What a [`PacketEncryption`] in the same state made of some bytes
    /// comes back as those bytes, and both registers then agree.
    pub fn decrypt(&mut self, data: &mut [u8])
        ensures
            final(self).key() == old(self).key(),
            final(data)@ == cfb8_decrypted(old(self).key(), old(self).register(), old(data)@),
            final(data)@.len() == old(data)@.len(),
            final(self).register() == (old(self).register() + old(data)@).skip(
                old(data)@.len() as int,
            ),
            forall|plain: Seq<u8>|
                old(data)@ == #[trigger] cfb8_encrypted(old(self).key(), old(self).register(), plain)
                    ==> final(data)@ == plain,
    {
        cfb8_decrypt(&self.key, &mut self.register, data);
    }
}

} // verus!
