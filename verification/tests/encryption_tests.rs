use aes::cipher::{AsyncStreamCipher, KeyIvInit};
use aes::Aes128;
use crust::server::encryption::{PacketDecryption, PacketEncryption};

fn reference(key: &[u8; 16], data: &[u8]) -> Vec<u8> {
    let mut out = data.to_vec();
    cfb8::Encryptor::<Aes128>::new(key.into(), key.into()).encrypt(&mut out);
    out
}

#[test]
fn encryption_matches_aes_cfb8_with_key_as_iv() {
    let key = [7u8; 16];
    let plain = b"hello world! this is my plaintext.".to_vec();
    let mut data = plain.clone();
    PacketEncryption::new(&key).encrypt(&mut data);
    assert_ne!(data, plain);
    assert_eq!(data, reference(&key, &plain));
}

#[test]
fn encryption_goes_on_across_calls() {
    let key = [0x42u8; 16];
    let plain: Vec<u8> = (0u8..60).collect();
    let mut enc = PacketEncryption::new(&key);
    let mut first = plain[..7].to_vec();
    let mut second = plain[7..].to_vec();
    enc.encrypt(&mut first);
    enc.encrypt(&mut second);
    first.extend_from_slice(&second);
    assert_eq!(first, reference(&key, &plain));
}

#[test]
fn decryption_undoes_encryption() {
    let key = [0x24u8; 16];
    let plain: Vec<u8> = (0u8..=255).collect();
    let mut enc = PacketEncryption::new(&key);
    let mut dec = PacketDecryption::new(&key);
    let mut data = plain.clone();
    enc.encrypt(&mut data[..100]);
    enc.encrypt(&mut data[100..]);
    assert_ne!(data, plain);
    dec.decrypt(&mut data[..3]);
    dec.decrypt(&mut data[3..]);
    assert_eq!(data, plain);
}

#[test]
fn empty_input_is_left_alone() {
    let key = [1u8; 16];
    let mut data: Vec<u8> = Vec::new();
    PacketEncryption::new(&key).encrypt(&mut data);
    PacketDecryption::new(&key).decrypt(&mut data);
    assert!(data.is_empty());
}
