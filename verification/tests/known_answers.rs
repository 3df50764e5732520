use wcry::decrypt_file;
use wcry::envelope::rekey;
use wcry::envelope::seal;
use wcry::envelope::Seed;
use wcry::keys::probe;
use wcry::keys::recover_key;
use wcry::keys::unwrap_key;
use wcry::keys::wrap_key;
use wcry::keys::EntrySeed;
use wcry::keys::FileKey;
use wcry::parse_header;
use wcry::primitives::derive_kek;
use wcry::primitives::gen_cek;
use wcry::primitives::gen_nonce;
use wcry::Error;

const SEALED: &str = "574352590001101112131415161718191a1b1c1d1e1fc8c9cacbcccdcecfd0d1d2d3806fc05482f4a3e72d9965ead85253ce00fdee535a1794c7e57bc7570c95a945e40ba430ee98cf8b49fd018eecd0223a92e63a5280e9e1c230d1aca88f25e41d4f8cebaeb7c3a0cfd4a8d603996402381d048bb0221b23d1d9a033f33313e046216c4cde9d8e91ae04b92eb2f7db6a1247439ba600dc1c6fe597fdbf43fcd37cd006b6c9ad4d8f327dbc596f6913035810fc87a7440d231d1f5dedc4d7c1ae35305d0bad15edb2f663d8248d32580bd113595450aeaa291ce4db3db6b529206e7b04e16bd0408224e29d61b653c40272a70c15ca4ee0af4df1f155fd6c41e00ce2307d8987ecd4bb36a7e990000000026d6487bf5f4ee2";

const REKEYED: &str = "574352590002090909090909090909090909090909090808080808080808080808086203fd6837dd51c757883d3fe640c8a9af4cf617d00fc36d52f6d1e02d118f270667990c5bb13dab33ec595b07070707070707070707070707070707060606060606060606060606e6a3a87fa20068ccc7e5bb2c817c8763ba70aff8d431a6df4393129b3840824082c7cc1bce6c04a0a381df48ecd0223a92e63a5280e9e1c230d1aca88f25e41d4f8cebaeb7c3a0cfd4a8d603996402381d048bb0221b23d1d9a033f33313e046216c4cde9d8e91ae04b92eb2f7db6a1247439ba600dc1c6fe597fdbf43fcd37cd006b6c9ad4d8f327dbc596f6913035810fc87a7440d231d1f5dedc4d7c1ae35305d0bad15edb2f663d8248d32580bd113595450aeaa291ce4db3db6b529206e7b04e16bd0408224e29d61b653c40272a70c15ca4ee0af4df1f155fd6c41e00ce2307d8987ecd4bb36a7e990000000026d6487bf5f4ee2";

fn unhex(s: &str) -> Vec<u8> {
    let digits: Vec<u8> = s.bytes().map(|c| (c as char).to_digit(16).unwrap() as u8).collect();
    digits.chunks(2).map(|p| p[0] * 16 + p[1]).collect()
}

fn counting<const N: usize>(from: u8) -> [u8; N] {
    let mut out = [0u8; N];
    for (i, b) in out.iter_mut().enumerate() {
        *b = from.wrapping_add(i as u8);
    }
    out
}

fn fixed_key() -> FileKey {
    FileKey { cek: counting::<32>(0), cek_nonce: counting::<12>(100) }
}

fn fixed_seed() -> Seed {
    let mut verify_block = [0u8; 128];
    for (i, b) in verify_block.iter_mut().enumerate() {
        *b = ((i * 7 + 3) % 256) as u8;
    }
    Seed {
        key: fixed_key(),
        verify_block,
        entries: vec![EntrySeed { salt: counting::<16>(16), kek_nonce: counting::<12>(200) }],
    }
}

#[test]
fn derive_kek_matches_argon2id_reference() {
    let kek = derive_kek(b"pw", &counting::<16>(16));
    assert_eq!(
        kek,
        unhex("fe9f85577e2a273cb8037ca99fb472f6ef5de9a7943fa736bf8cdc389feb8acc")
    );
}

#[test]
fn seal_gives_the_reference_envelope() {
    let out = seal(b"hello", &["pw".to_string()], Some(b"md"), &fixed_seed()).unwrap();
    assert_eq!(out, unhex(SEALED));
}

#[test]
fn reference_envelope_decrypts() {
    let out = decrypt_file(&unhex(SEALED), "pw").unwrap();
    assert!(out.body_mac_matched);
    assert_eq!(out.metadata, b"md".to_vec());
    assert_eq!(out.plaintext, b"hello".to_vec());
    assert_eq!(decrypt_file(&unhex(SEALED), "pW").err(), Some(Error::WrongPassword));
}

#[test]
fn rekey_gives_the_reference_envelope() {
    let seeds = vec![
        EntrySeed { salt: [9u8; 16], kek_nonce: [8u8; 12] },
        EntrySeed { salt: [7u8; 16], kek_nonce: [6u8; 12] },
    ];
    let news = vec!["pä".to_string(), "n2".to_string()];
    let out = rekey(&unhex(SEALED), "pw", &news, &seeds).unwrap();
    assert_eq!(out, unhex(REKEYED));
    let opened = decrypt_file(&out, "pä").unwrap();
    assert!(opened.body_mac_matched);
    assert_eq!(opened.plaintext, b"hello".to_vec());
    assert_eq!(opened.metadata, b"md".to_vec());
}

#[test]
fn rekey_refuses_in_order() {
    let seeds = vec![EntrySeed { salt: [9u8; 16], kek_nonce: [8u8; 12] }];
    let one = vec!["n".to_string()];
    assert_eq!(rekey(&unhex(SEALED), "pw", &[], &[]).err(), Some(Error::BadArgument));
    assert_eq!(rekey(&unhex(SEALED), "pw", &one, &[]).err(), Some(Error::BadArgument));
    assert_eq!(rekey(b"nope", "pw", &one, &seeds).err(), Some(Error::InvalidFormat));
    assert_eq!(rekey(&unhex(SEALED), "no", &one, &seeds).err(), Some(Error::WrongPassword));
}

#[test]
fn seal_refuses_a_seed_of_the_wrong_size() {
    let two = vec!["a".to_string(), "b".to_string()];
    assert_eq!(seal(b"x", &two, None, &fixed_seed()).err(), Some(Error::BadArgument));
    assert_eq!(seal(b"x", &[], None, &fixed_seed()).err(), Some(Error::BadArgument));
}

#[test]
fn probe_follows_cipher_and_mac_references() {
    let key = FileKey { cek: [0x42; 32], cek_nonce: [0x24; 12] };
    let block: Vec<u8> = (0u8..16).collect();
    let tag = unhex("da2aeef32dfcfc2dd939f2dd396aac39591d09d6dcd0b06a42a0cfda6829b391");
    assert!(probe(&key, &block, &tag));
    let mut other = tag.clone();
    other[31] ^= 1;
    assert!(!probe(&key, &block, &other));
    assert!(!probe(&key, &block, &tag[..31]));
    let mut moved = block.clone();
    moved[0] ^= 1;
    assert!(!probe(&key, &moved, &tag));
}

#[test]
fn wrap_then_unwrap_gives_the_key_back() {
    let seed = EntrySeed { salt: counting::<16>(16), kek_nonce: counting::<12>(200) };
    let entry = wrap_key(b"pw", &seed, &fixed_key());
    assert_eq!(entry.salt, seed.salt);
    assert_eq!(entry.kek_nonce, seed.kek_nonce);
    assert_eq!(entry.encrypted_cek.to_vec(), unhex(SEALED)[34..66].to_vec());
    assert_eq!(entry.encrypted_cek_nonce.to_vec(), unhex(SEALED)[66..78].to_vec());
    let back = unwrap_key(&entry, b"pw");
    assert_eq!(back.cek, fixed_key().cek);
    assert_eq!(back.cek_nonce, fixed_key().cek_nonce);
    let stray = unwrap_key(&entry, b"pX");
    assert_ne!(stray.cek, fixed_key().cek);
}

#[test]
fn recover_key_takes_the_accepting_entry() {
    let h = parse_header(&unhex(REKEYED)).unwrap();
    let key = recover_key(&h, b"n2").unwrap();
    assert_eq!(key.cek, fixed_key().cek);
    assert_eq!(key.cek_nonce, fixed_key().cek_nonce);
    assert!(recover_key(&h, b"pw").is_none());
}

#[test]
fn fresh_keys_and_nonces_differ() {
    let (cek_a, nonce_a) = gen_cek();
    let (cek_b, nonce_b) = gen_cek();
    assert_ne!(cek_a, cek_b);
    assert_ne!(nonce_a, nonce_b);
    assert_ne!(gen_nonce(), gen_nonce());
    assert_ne!(cek_a, [0u8; 32]);
}
