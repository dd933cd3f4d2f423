use poly1305::engine::{accumulate, clamp_key, finalize_tag, tags_equal};
use poly1305::{authenticate, verify, Poly1305Error, KEY_SIZE, TAG_SIZE};

fn hex(s: &str) -> Vec<u8> {
    let clean: Vec<char> = s.chars().filter(|c| c.is_ascii_hexdigit()).collect();
    clean
        .chunks(2)
        .map(|p| u8::from_str_radix(&p.iter().collect::<String>(), 16).unwrap())
        .collect()
}

fn rfc_key() -> Vec<u8> {
    hex("85:d6:be:78:57:55:6d:33:7f:44:52:fe:42:d5:06:a8:01:03:80:8a:fb:0d:b2:fd:4a:bf:f6:af:41:49:f5:1b")
}

fn sample_key() -> Vec<u8> {
    (0u8..32).map(|i| i.wrapping_mul(37).wrapping_add(11)).collect()
}

fn key_from(r: &str, s: &str) -> Vec<u8> {
    let mut k = hex(r);
    k.extend(hex(s));
    k
}

#[test]
fn constants() {
    assert_eq!(KEY_SIZE, 32);
    assert_eq!(TAG_SIZE, 16);
}

#[test]
fn rfc8439_vector_authenticate() {
    let tag = authenticate(&rfc_key(), b"Cryptographic Forum Research Group").unwrap();
    assert_eq!(tag, hex("a8:06:1d:c1:30:51:36:c6:c2:2b:8b:af:0c:01:27:a9"));
}

#[test]
fn rfc8439_vector_verify() {
    let tag = hex("a8:06:1d:c1:30:51:36:c6:c2:2b:8b:af:0c:01:27:a9");
    assert_eq!(verify(&rfc_key(), &tag, b"Cryptographic Forum Research Group"), Ok(true));
}

#[test]
fn all_zero_key_and_message() {
    let tag = authenticate(&[0u8; 32], &[0u8; 64]).unwrap();
    assert_eq!(tag, vec![0u8; 16]);
}

#[test]
fn accumulator_wraps_past_prime() {
    // h reaches 2^130 - 5 + 3 before the final reduction.
    let key = key_from("02000000000000000000000000000000", "00000000000000000000000000000000");
    let tag = authenticate(&key, &[0xffu8; 16]).unwrap();
    assert_eq!(tag, hex("03000000000000000000000000000000"));
}

#[test]
fn s_addition_wraps_mod_2_128() {
    let key = key_from("02000000000000000000000000000000", "ffffffffffffffffffffffffffffffff");
    let tag = authenticate(&key, &hex("02000000000000000000000000000000")).unwrap();
    assert_eq!(tag, hex("03000000000000000000000000000000"));
}

#[test]
fn carries_across_three_blocks() {
    let key = key_from("01000000000000000000000000000000", "00000000000000000000000000000000");
    let msg = hex(
        "ffffffffffffffffffffffffffffffff\
         f0ffffffffffffffffffffffffffffff\
         11000000000000000000000000000000",
    );
    let tag = authenticate(&key, &msg).unwrap();
    assert_eq!(tag, hex("05000000000000000000000000000000"));
}

#[test]
fn sum_reduces_to_zero() {
    let key = key_from("01000000000000000000000000000000", "00000000000000000000000000000000");
    let msg = hex(
        "ffffffffffffffffffffffffffffffff\
         fbfefefefefefefefefefefefefefefe\
         01010101010101010101010101010101",
    );
    let tag = authenticate(&key, &msg).unwrap();
    assert_eq!(tag, vec![0u8; 16]);
}

#[test]
fn final_value_just_below_prime() {
    let key = key_from("02000000000000000000000000000000", "00000000000000000000000000000000");
    let tag = authenticate(&key, &hex("fdffffffffffffffffffffffffffffff")).unwrap();
    assert_eq!(tag, hex("faffffffffffffffffffffffffffffff"));
}

#[test]
fn authenticate_is_deterministic() {
    let key = sample_key();
    let msg: Vec<u8> = (0u8..77).collect();
    assert_eq!(authenticate(&key, &msg), authenticate(&key, &msg));
}

#[test]
fn round_trip_for_many_lengths() {
    let key = sample_key();
    for len in [0usize, 1, 15, 16, 17, 31, 32, 33, 100, 255] {
        let msg: Vec<u8> = (0..len).map(|i| (i * 7 + 3) as u8).collect();
        let tag = authenticate(&key, &msg).unwrap();
        assert_eq!(tag.len(), 16);
        assert_eq!(verify(&key, &tag, &msg), Ok(true));
    }
}

#[test]
fn flipped_message_bit_is_rejected() {
    let key = sample_key();
    let msg: Vec<u8> = (0u8..40).collect();
    let tag = authenticate(&key, &msg).unwrap();
    for i in 0..msg.len() {
        for b in 0..8 {
            let mut m = msg.clone();
            m[i] ^= 1 << b;
            assert_eq!(verify(&key, &tag, &m), Ok(false));
        }
    }
}

#[test]
fn flipped_key_bit_is_rejected() {
    let key = rfc_key();
    let msg = b"Cryptographic Forum Research Group";
    let tag = authenticate(&key, msg).unwrap();
    for i in 0..32 {
        for b in 0..8 {
            let mut k = key.clone();
            k[i] ^= 1 << b;
            let clamped_away = i < 16 && authenticate(&k, msg).unwrap() == tag;
            if !clamped_away {
                assert_eq!(verify(&k, &tag, msg), Ok(false));
            }
        }
    }
}

#[test]
fn flipped_tag_bit_is_rejected() {
    let key = rfc_key();
    let msg = b"Cryptographic Forum Research Group";
    let tag = authenticate(&key, msg).unwrap();
    for i in 0..16 {
        for b in 0..8 {
            let mut t = tag.clone();
            t[i] ^= 1 << b;
            assert_eq!(verify(&key, &t, msg), Ok(false));
        }
    }
}

#[test]
fn authenticate_rejects_bad_key_lengths() {
    for len in [0usize, 16, 31, 33, 64] {
        assert_eq!(authenticate(&vec![7u8; len], b"msg"), Err(Poly1305Error::InvalidKeyLength));
    }
}

#[test]
fn verify_rejects_bad_key_length() {
    assert_eq!(verify(&[1u8; 31], &[0u8; 16], b"msg"), Err(Poly1305Error::InvalidKeyLength));
    assert_eq!(verify(&[1u8; 33], &[0u8; 16], b"msg"), Err(Poly1305Error::InvalidKeyLength));
}

#[test]
fn verify_rejects_bad_tag_length() {
    for len in [0usize, 15, 17, 32] {
        let tag = vec![0u8; len];
        assert_eq!(verify(&sample_key(), &tag, b"msg"), Err(Poly1305Error::InvalidTagLength));
        assert_eq!(verify(&[0u8; 5], &tag, b"msg"), Err(Poly1305Error::InvalidTagLength));
    }
}

#[test]
fn empty_message_tag_is_s() {
    let key = sample_key();
    let tag = authenticate(&key, &[]).unwrap();
    assert_eq!(tag, key[16..32].to_vec());
    assert_eq!(verify(&key, &key[16..32], &[]), Ok(true));
}

#[test]
fn clamp_key_clears_the_masked_bits() {
    let r = clamp_key(&[0xffu8; 32]);
    assert_eq!(r, hex("ffffff0ffcffff0ffcffff0ffcffff0f"));
    let r = clamp_key(&rfc_key());
    assert_eq!(r, hex("85d6be0854556d037c44520e40d50608"));
}

#[test]
fn accumulate_empty_message_is_zero() {
    let r = clamp_key(&rfc_key());
    let h = accumulate(&r, &[]);
    assert_eq!((h.l0, h.l1, h.l2), (0, 0, 0));
}

#[test]
fn accumulate_single_byte_block() {
    // r = 2, block 0x05 with its marker bit: (5 + 256) * 2.
    let r = hex("02000000000000000000000000000000");
    let h = accumulate(&r, &[5u8]);
    assert_eq!((h.l0, h.l1, h.l2), (522, 0, 0));
}

#[test]
fn finalize_tag_adds_s() {
    let r = hex("02000000000000000000000000000000");
    let h = accumulate(&r, &[5u8]);
    let s = hex("01000000000000000000000000000080");
    assert_eq!(finalize_tag(h, &s), hex("0b020000000000000000000000000080"));
}

#[test]
fn tags_equal_compares_contents() {
    let a = hex("a8061dc1305136c6c22b8baf0c0127a9");
    let mut b = a.clone();
    assert!(tags_equal(&a, &b));
    b[15] ^= 0x80;
    assert!(!tags_equal(&a, &b));
    assert!(!tags_equal(&a, &a[..15]));
}
