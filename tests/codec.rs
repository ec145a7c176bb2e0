use darknode_backend::crypto::{Crypto, CryptoImpl, KEY_LEN, NONCE_LEN, SIGNATURE_LEN, TAG_LEN, fresh_id};
use darknode_backend::onion::{
    LAYER_OVERHEAD, add_layer, decode_layer, encode_layer, peel_layer, peel_layers, wrap_layers,
};
use darknode_backend::types::{CryptoKey, DarkNodeError, EncryptedData};

fn key(byte: u8) -> CryptoKey {
    CryptoKey(vec![byte; KEY_LEN])
}

#[test]
fn keypair_has_fixed_lengths_and_differs_each_time() {
    let crypto = CryptoImpl;
    let (pk1, sk1) = crypto.generate_keypair().unwrap();
    let (pk2, sk2) = crypto.generate_keypair().unwrap();
    assert_eq!(pk1.0.len(), KEY_LEN);
    assert_eq!(sk1.0.len(), KEY_LEN);
    assert_ne!(pk1.0, sk1.0);
    assert_ne!(pk1.0, pk2.0);
    assert_ne!(sk1.0, sk2.0);
}

#[test]
fn encrypt_then_decrypt_gives_plaintext() {
    let crypto = CryptoImpl;
    let k = key(7);
    let msg = b"getBalance".to_vec();
    let sealed = crypto.encrypt(&msg, &k).unwrap();
    assert_eq!(sealed.nonce.len(), NONCE_LEN);
    assert_eq!(sealed.data.len(), msg.len() + TAG_LEN);
    assert_ne!(&sealed.data[..msg.len()], &msg[..]);
    assert!(sealed.aad.is_none());
    assert_eq!(crypto.decrypt(&sealed, &k).unwrap(), msg);
}

#[test]
fn encrypt_uses_fresh_nonces() {
    let crypto = CryptoImpl;
    let k = key(1);
    let msg = b"same".to_vec();
    let a = crypto.encrypt(&msg, &k).unwrap();
    let b = crypto.encrypt(&msg, &k).unwrap();
    assert_ne!(a.nonce, b.nonce);
    assert_ne!(a.data, b.data);
}

#[test]
fn decrypt_with_wrong_key_fails() {
    let crypto = CryptoImpl;
    let sealed = crypto.encrypt(&b"payload".to_vec(), &key(1)).unwrap();
    assert_eq!(crypto.decrypt(&sealed, &key(2)), Err(DarkNodeError::LayerDecryptFailure));
}

#[test]
fn decrypt_of_tampered_ciphertext_fails() {
    let crypto = CryptoImpl;
    let k = key(3);
    let sealed = crypto.encrypt(&b"payload".to_vec(), &k).unwrap();
    for i in 0..sealed.data.len() {
        let mut bad = EncryptedData { data: sealed.data.clone(), nonce: sealed.nonce.clone(), aad: None };
        bad.data[i] ^= 0x01;
        assert_eq!(crypto.decrypt(&bad, &k), Err(DarkNodeError::LayerDecryptFailure));
    }
}

#[test]
fn decrypt_with_invalid_nonce_fails() {
    let crypto = CryptoImpl;
    let k = key(3);
    let sealed = crypto.encrypt(&b"payload".to_vec(), &k).unwrap();
    let short = EncryptedData { data: sealed.data.clone(), nonce: vec![0u8; 5], aad: None };
    assert_eq!(crypto.decrypt(&short, &k), Err(DarkNodeError::LayerDecryptFailure));
    let mut other = EncryptedData { data: sealed.data.clone(), nonce: sealed.nonce.clone(), aad: None };
    other.nonce[0] ^= 0x80;
    assert_eq!(crypto.decrypt(&other, &k), Err(DarkNodeError::LayerDecryptFailure));
}

#[test]
fn sign_then_verify() {
    let crypto = CryptoImpl;
    let (pk, sk) = crypto.generate_keypair().unwrap();
    let data = b"circuit announcement".to_vec();
    let sig = crypto.sign(&data, &sk).unwrap();
    assert_eq!(sig.len(), SIGNATURE_LEN);
    assert_eq!(crypto.sign(&data, &sk).unwrap(), sig);
    assert_eq!(crypto.verify(&data, &sig, &pk), Ok(true));
    assert_eq!(crypto.verify(&data, &sig, &pk), Ok(true));
    assert_eq!(crypto.verify(&b"other data".to_vec(), &sig, &pk), Ok(false));
}

#[test]
fn verify_refuses_malformed_signatures() {
    let crypto = CryptoImpl;
    let (pk, sk) = crypto.generate_keypair().unwrap();
    let data = b"data".to_vec();
    let sig = crypto.sign(&data, &sk).unwrap();
    assert_eq!(crypto.verify(&data, &sig[..63].to_vec(), &pk), Err(DarkNodeError::InvalidSignature));
    assert_eq!(crypto.verify(&data, &vec![0u8; 65], &pk), Err(DarkNodeError::InvalidSignature));
    let mut high = sig.clone();
    high[63] |= 0xE0;
    assert_eq!(crypto.verify(&data, &high, &pk), Err(DarkNodeError::InvalidSignature));
}

#[test]
fn wrong_key_lengths_are_refused() {
    let crypto = CryptoImpl;
    let data = b"data".to_vec();
    assert_eq!(crypto.sign(&data, &CryptoKey(vec![1u8; 31])), Err(DarkNodeError::InvalidKey));
    assert_eq!(
        crypto.verify(&data, &vec![0u8; SIGNATURE_LEN], &CryptoKey(vec![1u8; 33])),
        Err(DarkNodeError::InvalidKey)
    );
}

#[test]
fn fresh_ids_differ() {
    let a = fresh_id().unwrap();
    let b = fresh_id().unwrap();
    assert_ne!(a, b);
}

#[test]
fn layer_framing_round_trips() {
    let layer = EncryptedData { data: vec![9, 8, 7], nonce: vec![1; NONCE_LEN], aad: None };
    let bytes = encode_layer(&layer);
    assert_eq!(bytes.len(), NONCE_LEN + 3);
    let back = decode_layer(&bytes).unwrap();
    assert_eq!(back.nonce, layer.nonce);
    assert_eq!(back.data, layer.data);
}

#[test]
fn short_layer_is_refused() {
    assert_eq!(decode_layer(&vec![0u8; NONCE_LEN - 1]).err(), Some(DarkNodeError::LayerDecryptFailure));
    assert_eq!(decode_layer(&vec![]).err(), Some(DarkNodeError::LayerDecryptFailure));
}

#[test]
fn one_layer_adds_fixed_overhead() {
    let inner = b"inner".to_vec();
    let k = key(4);
    let outer = add_layer(&inner, &k).unwrap();
    assert_eq!(outer.len(), inner.len() + LAYER_OVERHEAD);
    assert_eq!(peel_layer(&outer, &k).unwrap(), inner);
    assert_eq!(peel_layer(&outer, &key(5)), Err(DarkNodeError::LayerDecryptFailure));
}

#[test]
fn onion_round_trip_for_each_hop_count() {
    let payload = b"{\"method\":\"getBalance\"}".to_vec();
    for hops in 1..=5u8 {
        let keys: Vec<CryptoKey> = (0..hops).map(|i| key(10 + i)).collect();
        let onion = wrap_layers(&keys, &payload).unwrap();
        assert_eq!(onion.len(), payload.len() + LAYER_OVERHEAD * hops as usize);
        assert_eq!(peel_layers(&keys, &onion).unwrap(), payload);
        // hop by hop, in order
        let mut cur = onion.clone();
        for k in keys.iter() {
            cur = peel_layer(&cur, k).unwrap();
        }
        assert_eq!(cur, payload);
    }
}

#[test]
fn onion_with_no_keys_is_the_payload() {
    let payload = b"raw".to_vec();
    let keys: Vec<CryptoKey> = Vec::new();
    assert_eq!(wrap_layers(&keys, &payload).unwrap(), payload);
    assert_eq!(peel_layers(&keys, &payload).unwrap(), payload);
}

#[test]
fn empty_payload_round_trips() {
    let keys = vec![key(1), key(2)];
    let onion = wrap_layers(&keys, &Vec::new()).unwrap();
    assert_eq!(peel_layers(&keys, &onion).unwrap(), Vec::<u8>::new());
}

#[test]
fn flipping_any_bit_of_any_layer_is_detected() {
    let payload = b"secret request".to_vec();
    let keys = vec![key(21), key(22), key(23)];
    let onion = wrap_layers(&keys, &payload).unwrap();
    // every layer, seen by the hop that peels it
    let mut layers = vec![onion.clone()];
    let mut cur = onion.clone();
    for k in keys.iter() {
        cur = peel_layer(&cur, k).unwrap();
        layers.push(cur.clone());
    }
    for (h, k) in keys.iter().enumerate() {
        let layer = &layers[h];
        for i in NONCE_LEN..layer.len() {
            for bit in [0x01u8, 0x80u8] {
                let mut bad = layer.clone();
                bad[i] ^= bit;
                assert_eq!(peel_layer(&bad, k), Err(DarkNodeError::LayerDecryptFailure));
            }
        }
    }
}

#[test]
fn peeling_in_wrong_order_fails() {
    let payload = b"p".to_vec();
    let keys = vec![key(1), key(2)];
    let onion = wrap_layers(&keys, &payload).unwrap();
    let reversed = vec![key(2), key(1)];
    assert_eq!(peel_layers(&reversed, &onion), Err(DarkNodeError::LayerDecryptFailure));
}
