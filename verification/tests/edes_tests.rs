use enhanced_des::edes::EdesContext;
use enhanced_des::edes::decrypt;
use enhanced_des::edes::encrypt;
use enhanced_des::errors::EdesError;
use enhanced_des::padding::pkcs7_pad;
use enhanced_des::padding::pkcs7_unpad;
use enhanced_des::sbox::create_sbox;
use enhanced_des::sbox::gen_sboxes;

fn zero_key_context() -> EdesContext {
    match EdesContext::new(vec![0u8; 32]) {
        Ok(ctx) => ctx,
        Err(_) => panic!("a 32-byte key must be accepted"),
    }
}

fn counting_key_context() -> EdesContext {
    let key: Vec<u8> = (0u8..32).collect();
    match EdesContext::new(key) {
        Ok(ctx) => ctx,
        Err(_) => panic!("a 32-byte key must be accepted"),
    }
}

#[test]
fn round_trip_various_lengths() {
    let ctx = counting_key_context();
    for len in [0usize, 1, 7, 8, 9, 15, 16, 17, 63, 64, 200] {
        let message: Vec<u8> = (0..len).map(|i| (i * 37 % 256) as u8).collect();
        let ciphertext = encrypt(message.clone(), &ctx);
        let recovered = decrypt(ciphertext, &ctx).unwrap();
        assert_eq!(recovered, message);
    }
}

#[test]
fn round_trip_under_distinct_contexts_from_same_key() {
    let message: Vec<u8> = b"attack at dawn".to_vec();
    let ciphertext = encrypt(message.clone(), &zero_key_context());
    let recovered = decrypt(ciphertext, &zero_key_context()).unwrap();
    assert_eq!(recovered, message);
}

#[test]
fn encryption_is_deterministic() {
    let ctx = counting_key_context();
    let message: Vec<u8> = b"same message, same bytes out".to_vec();
    let first = encrypt(message.clone(), &ctx);
    let second = encrypt(message.clone(), &ctx);
    assert_eq!(first, second);
    let again = encrypt(message, &counting_key_context());
    assert_eq!(first, again);
}

#[test]
fn ciphertext_length_is_padded_multiple_of_eight() {
    let ctx = zero_key_context();
    for len in 0usize..=17 {
        let message = vec![0xABu8; len];
        let ciphertext = encrypt(message, &ctx);
        assert_eq!(ciphertext.len() % 8, 0);
        let added = ciphertext.len() - len;
        assert!(1 <= added && added <= 8);
    }
}

#[test]
fn sboxes_are_permutations() {
    for key in [vec![0u8; 32], (0u8..32).collect(), vec![0xFFu8; 32]] {
        let sboxes = gen_sboxes(key);
        assert_eq!(sboxes.len(), 16);
        for sbox in &sboxes {
            assert_eq!(sbox.len(), 256);
            let mut counts = [0usize; 256];
            for &value in sbox {
                counts[value as usize] += 1;
            }
            assert!(counts.iter().all(|&c| c == 1));
        }
    }
}

#[test]
fn sboxes_differ_between_rounds() {
    let sboxes = gen_sboxes(vec![0u8; 32]);
    for i in 0..16 {
        for j in (i + 1)..16 {
            assert_ne!(sboxes[i], sboxes[j]);
        }
    }
}

#[test]
fn create_sbox_transforms_working_key() {
    let mut key: Vec<u8> = (0u8..32).collect();
    let original = key.clone();
    let sbox = create_sbox(&mut key, 0);
    assert_eq!(key, original);
    assert_eq!(sbox.len(), 256);

    let sbox_one = create_sbox(&mut key, 1);
    for p in 0..31 {
        assert_eq!(key[p], original[p + 1] ^ 1);
    }
    assert_eq!(key[31], original[31]);
    assert_ne!(sbox_one, sbox);
}

#[test]
fn empty_message_becomes_one_full_padding_block() {
    let ctx = zero_key_context();
    let ciphertext = encrypt(Vec::new(), &ctx);
    assert_eq!(ciphertext.len(), 8);
    assert_eq!(ciphertext, vec![169, 197, 162, 68, 185, 193, 117, 171]);
    let recovered = decrypt(ciphertext, &ctx).unwrap();
    assert!(recovered.is_empty());
}

#[test]
fn aligned_message_gains_an_extra_block() {
    let ctx = zero_key_context();
    let ciphertext = encrypt(vec![0u8; 8], &ctx);
    assert_eq!(ciphertext.len(), 16);
    // Under ECB the appended full padding block encrypts to the same bytes
    // as the ciphertext of the empty message, whose sole block is exactly
    // that padding block.
    assert_eq!(ciphertext[8..16].to_vec(), encrypt(Vec::new(), &ctx));
    let recovered = decrypt(ciphertext, &ctx).unwrap();
    assert_eq!(recovered, vec![0u8; 8]);
}

#[test]
fn golden_vector_regression() {
    let ctx = counting_key_context();
    let plaintext = b"The quick brown fox".to_vec();
    let ciphertext = encrypt(plaintext.clone(), &ctx);
    assert_eq!(
        ciphertext,
        vec![
            109, 208, 113, 28, 250, 157, 11, 74, 103, 169, 58, 92, 153, 31, 113, 252, 245, 125,
            100, 195, 5, 79, 210, 53,
        ]
    );
    assert_eq!(decrypt(ciphertext, &ctx).unwrap(), plaintext);
}

#[test]
fn tampering_one_block_leaves_other_blocks_intact() {
    let ctx = zero_key_context();
    let message: Vec<u8> = (0u8..10).collect();
    let mut ciphertext = encrypt(message.clone(), &ctx);
    assert_eq!(ciphertext.len(), 16);
    ciphertext[3] ^= 0xFF;
    let recovered = decrypt(ciphertext, &ctx).unwrap();
    assert_eq!(recovered.len(), message.len());
    // Only recovered block 0 is corrupted; block 1 survives unchanged.
    assert_eq!(recovered[8..10], message[8..10]);
    assert_ne!(recovered[0..8], message[0..8]);
}

#[test]
fn short_and_long_keys_are_rejected() {
    for len in [31usize, 33] {
        match EdesContext::new(vec![0u8; len]) {
            Ok(_) => panic!("a {len}-byte key must be rejected"),
            Err(e) => assert_eq!(e, EdesError::InvalidKeyLength),
        }
    }
}

#[test]
fn bad_ciphertext_lengths_are_rejected() {
    let ctx = zero_key_context();
    for len in [1usize, 5, 9, 15] {
        let result = decrypt(vec![0u8; len], &ctx);
        assert_eq!(result, Err(EdesError::InvalidCiphertextLength));
    }
    assert_eq!(
        decrypt(Vec::new(), &ctx),
        Err(EdesError::InvalidCiphertextLength)
    );
}

#[test]
fn corrupt_padding_is_rejected() {
    let ctx = zero_key_context();
    // Eight zero bytes decrypt (under the zero key) to a block whose final
    // byte exceeds the block length, so unpadding must fail.
    let result = decrypt(vec![0u8; 8], &ctx);
    assert_eq!(result, Err(EdesError::InvalidPadding));
}

#[test]
fn pad_appends_value_equal_to_count() {
    for len in 0usize..=17 {
        let mut payload = vec![0x5Au8; len];
        pkcs7_pad(&mut payload);
        assert_eq!(payload.len() % 8, 0);
        let added = payload.len() - len;
        assert!(1 <= added && added <= 8);
        for p in len..payload.len() {
            assert_eq!(payload[p], added as u8);
        }
    }
}

#[test]
fn unpad_inverts_pad() {
    for len in 0usize..=17 {
        let original: Vec<u8> = (0..len).map(|i| i as u8).collect();
        let mut payload = original.clone();
        pkcs7_pad(&mut payload);
        assert!(pkcs7_unpad(&mut payload).is_ok());
        assert_eq!(payload, original);
    }
}

#[test]
fn unpad_rejects_malformed_final_byte() {
    let mut zero_final = vec![1u8, 2, 3, 0];
    assert_eq!(pkcs7_unpad(&mut zero_final), Err(EdesError::InvalidPadding));
    assert_eq!(zero_final, vec![1, 2, 3, 0]);

    let mut oversized_final = vec![1u8, 2, 9];
    assert_eq!(
        pkcs7_unpad(&mut oversized_final),
        Err(EdesError::InvalidPadding)
    );
    assert_eq!(oversized_final, vec![1, 2, 9]);

    let mut empty: Vec<u8> = Vec::new();
    assert_eq!(pkcs7_unpad(&mut empty), Err(EdesError::InvalidPadding));
}
