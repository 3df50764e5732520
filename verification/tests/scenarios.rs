use rand::RngCore;
use wcry::decrypt_file;
use wcry::encrypt_file;
use wcry::parse_header;
use wcry::reset_passwords;
use wcry::update_metadata;
use wcry::Error;

fn pws(list: &[&str]) -> Vec<String> {
    list.iter().map(|s| s.to_string()).collect()
}

#[test]
fn hello_round_trip_without_metadata() {
    let env = encrypt_file(b"hello", &pws(&["pw"]), None).unwrap();
    assert_eq!(env.len(), 6 + 72 + 192 + 4 + 5);
    assert_eq!(&env[..4], b"WCRY");
    assert_ne!(&env[env.len() - 5..], b"hello");
    let out = decrypt_file(&env, "pw").unwrap();
    assert!(out.body_mac_matched);
    assert_eq!(out.metadata, b"".to_vec());
    assert_eq!(out.plaintext, b"hello".to_vec());
}

#[test]
fn empty_plaintext_three_passwords() {
    let env = encrypt_file(b"", &pws(&["a", "b", "c"]), Some(b"{}")).unwrap();
    assert_eq!(env.len(), 6 + 3 * 72 + 192 + 4 + 2);
    let out = decrypt_file(&env, "b").unwrap();
    assert!(out.body_mac_matched);
    assert_eq!(out.metadata, b"{}".to_vec());
    assert_eq!(out.plaintext, Vec::<u8>::new());
}

#[test]
fn flipped_last_byte_of_one_mebibyte() {
    let mut plain = vec![0u8; 1 << 20];
    rand::thread_rng().fill_bytes(&mut plain);
    let mut env = encrypt_file(&plain, &pws(&["p1"]), None).unwrap();
    let last = env.len() - 1;
    env[last] ^= 0x01;
    let out = decrypt_file(&env, "p1").unwrap();
    assert!(!out.body_mac_matched);
    assert_eq!(out.metadata, b"".to_vec());
    assert_eq!(out.plaintext.len(), 1 << 20);
    assert_eq!(&out.plaintext[..last - (env.len() - plain.len())], &plain[..plain.len() - 1]);
    assert_ne!(out.plaintext[plain.len() - 1], plain[plain.len() - 1]);
}

#[test]
fn reset_passwords_swaps_the_password_set() {
    let env = encrypt_file(b"data", &pws(&["old"]), Some(b"m1")).unwrap();
    let env2 = reset_passwords(&env, "old", &pws(&["n1", "n2"])).unwrap();
    let out = decrypt_file(&env2, "n1").unwrap();
    assert!(out.body_mac_matched);
    assert_eq!(out.metadata, b"m1".to_vec());
    assert_eq!(out.plaintext, b"data".to_vec());
    assert_eq!(decrypt_file(&env2, "old").err(), Some(Error::WrongPassword));
    let before = parse_header(&env).unwrap();
    let after = parse_header(&env2).unwrap();
    assert_eq!(after.password_count, 2);
    assert_eq!(after.encrypted_verify_block, before.encrypted_verify_block);
    assert_eq!(after.verify_block_hmac, before.verify_block_hmac);
    assert_eq!(after.file_hmac, before.file_hmac);
    assert_eq!(&env2[env2.len() - 4..], &env[env.len() - 4..]);
}

#[test]
fn update_metadata_keeps_the_plaintext() {
    let env = encrypt_file(b"data", &pws(&["p"]), Some(b"v1")).unwrap();
    let env2 = update_metadata(&env, b"v2-longer".to_vec()).unwrap();
    assert_eq!(env2.len(), env.len() + 7);
    let out = decrypt_file(&env2, "p").unwrap();
    assert!(out.body_mac_matched);
    assert_eq!(out.metadata, b"v2-longer".to_vec());
    assert_eq!(out.plaintext, b"data".to_vec());
}

#[test]
fn legacy_envelope_without_metadata_tail() {
    let env = encrypt_file(b"x", &pws(&["p"]), None).unwrap();
    let fixed = 6 + 72 + 192;
    let mut legacy = env[..fixed].to_vec();
    legacy.extend_from_slice(&env[fixed + 4..]);
    assert_eq!(legacy.len(), fixed + 1);
    let h = parse_header(&legacy).unwrap();
    assert_eq!(h.metadata_len, 0);
    assert!(h.metadata.is_empty());
    let out = decrypt_file(&legacy, "p").unwrap();
    assert!(out.body_mac_matched);
    assert_eq!(out.metadata, b"".to_vec());
    assert_eq!(out.plaintext, b"x".to_vec());
}

#[test]
fn every_password_of_the_set_opens() {
    let list = pws(&["one", "two", "three"]);
    let env = encrypt_file(b"payload", &list, Some(b"meta")).unwrap();
    for p in ["one", "two", "three"] {
        let out = decrypt_file(&env, p).unwrap();
        assert!(out.body_mac_matched);
        assert_eq!(out.plaintext, b"payload".to_vec());
        assert_eq!(out.metadata, b"meta".to_vec());
    }
}

#[test]
fn password_outside_the_set_is_refused() {
    let env = encrypt_file(b"payload", &pws(&["right"]), None).unwrap();
    assert_eq!(decrypt_file(&env, "wrong").err(), Some(Error::WrongPassword));
    assert_eq!(decrypt_file(&env, "").err(), Some(Error::WrongPassword));
}

#[test]
fn two_encryptions_differ() {
    let list = pws(&["pw"]);
    let a = encrypt_file(b"same", &list, Some(b"m")).unwrap();
    let b = encrypt_file(b"same", &list, Some(b"m")).unwrap();
    assert_eq!(a.len(), b.len());
    assert_ne!(a, b);
    assert_ne!(&a[6..22], &b[6..22]);
    assert_ne!(&a[22..34], &b[22..34]);
    assert_ne!(&a[78..206], &b[78..206]);
    assert_ne!(&a[6..22], &[0u8; 16][..]);
}

#[test]
fn flipped_verify_block_refuses_the_password() {
    let mut env = encrypt_file(b"data", &pws(&["pw"]), None).unwrap();
    env[6 + 72 + 5] ^= 0x80;
    assert_eq!(decrypt_file(&env, "pw").err(), Some(Error::WrongPassword));
}

#[test]
fn flipped_body_bit_fails_the_tag() {
    let mut env = encrypt_file(b"some data", &pws(&["pw"]), Some(b"m")).unwrap();
    let at = env.len() - 9;
    env[at] ^= 0x10;
    let out = decrypt_file(&env, "pw").unwrap();
    assert!(!out.body_mac_matched);
    assert_eq!(out.metadata, b"m".to_vec());
    assert_eq!(out.plaintext[0], b's' ^ 0x10);
    assert_eq!(&out.plaintext[1..], b"ome data");
}

#[test]
fn update_metadata_with_same_metadata_is_identity() {
    let env = encrypt_file(b"data", &pws(&["p"]), Some(b"same")).unwrap();
    let env2 = update_metadata(&env, b"same".to_vec()).unwrap();
    assert_eq!(env2, env);
}

#[test]
fn metadata_of_length_one() {
    let env = encrypt_file(b"d", &pws(&["p"]), Some(b"M")).unwrap();
    let h = parse_header(&env).unwrap();
    assert_eq!(h.metadata_len, 1);
    assert_eq!(h.metadata, b"M".to_vec());
    let out = decrypt_file(&env, "p").unwrap();
    assert_eq!(out.metadata, b"M".to_vec());
    assert!(out.body_mac_matched);
}

#[test]
fn empty_metadata_is_like_none() {
    let a = encrypt_file(b"d", &pws(&["p"]), Some(b"")).unwrap();
    let b = encrypt_file(b"d", &pws(&["p"]), None).unwrap();
    assert_eq!(a.len(), b.len());
    assert_eq!(decrypt_file(&a, "p").unwrap().metadata, Vec::<u8>::new());
    assert_eq!(decrypt_file(&b, "p").unwrap().metadata, Vec::<u8>::new());
}
