use wcry::decrypt_file;
use wcry::encrypt_file;
use wcry::header::parse_envelope;
use wcry::header::write_header;
use wcry::parse_header;
use wcry::reset_passwords;
use wcry::update_metadata;
use wcry::wire::get_be16;
use wcry::wire::get_be32;
use wcry::wire::put_be16;
use wcry::wire::put_be32;
use wcry::Entry;
use wcry::Error;
use wcry::FileHeader;

fn entry(tag: u8) -> Entry {
    Entry {
        salt: [tag; 16],
        kek_nonce: [tag.wrapping_add(1); 12],
        encrypted_cek: [tag.wrapping_add(2); 32],
        encrypted_cek_nonce: [tag.wrapping_add(3); 12],
    }
}

fn header(count: u16, metadata: &[u8]) -> FileHeader {
    FileHeader {
        magic: *b"WCRY",
        password_count: count,
        entries: (0..count).map(|i| entry(i as u8)).collect(),
        encrypted_verify_block: vec![0xAB; 128],
        verify_block_hmac: [0xCD; 32],
        file_hmac: [0xEF; 32],
        metadata_len: metadata.len() as u32,
        metadata: metadata.to_vec(),
    }
}

fn written(h: &FileHeader) -> Vec<u8> {
    let mut out = Vec::new();
    write_header(h, &mut out);
    out
}

#[test]
fn big_endian_helpers() {
    let mut out = vec![0xFFu8];
    put_be16(&mut out, 0x0102);
    put_be32(&mut out, 0x0A0B0C0D);
    assert_eq!(out, vec![0xFF, 0x01, 0x02, 0x0A, 0x0B, 0x0C, 0x0D]);
    assert_eq!(get_be16(&out, 1), 0x0102);
    assert_eq!(get_be32(&out, 3), 0x0A0B0C0D);
    assert_eq!(get_be16(&[0xFF, 0xFF], 0), 65535);
    assert_eq!(get_be32(&[0xFF, 0xFF, 0xFF, 0xFF], 0), u32::MAX);
}

#[test]
fn header_layout_is_byte_exact() {
    let bytes = written(&header(2, b"xyz"));
    assert_eq!(bytes.len(), 6 + 2 * 72 + 128 + 32 + 32 + 4 + 3);
    assert_eq!(&bytes[..6], &[b'W', b'C', b'R', b'Y', 0, 2]);
    assert_eq!(&bytes[6..22], &[0u8; 16]);
    assert_eq!(&bytes[22..34], &[1u8; 12]);
    assert_eq!(&bytes[34..66], &[2u8; 32]);
    assert_eq!(&bytes[66..78], &[3u8; 12]);
    assert_eq!(&bytes[78..94], &[1u8; 16]);
    assert_eq!(&bytes[150..278], &[0xABu8; 128][..]);
    assert_eq!(&bytes[278..310], &[0xCDu8; 32]);
    assert_eq!(&bytes[310..342], &[0xEFu8; 32]);
    assert_eq!(&bytes[342..346], &[0, 0, 0, 3]);
    assert_eq!(&bytes[346..], b"xyz");
}

#[test]
fn parse_reads_back_what_was_written() {
    let h = header(3, b"meta");
    let mut bytes = written(&h);
    bytes.extend_from_slice(b"BODY");
    let (back, body_at) = parse_envelope(&bytes).unwrap();
    assert_eq!(body_at, bytes.len() - 4);
    assert_eq!(back.magic, *b"WCRY");
    assert_eq!(back.password_count, 3);
    assert_eq!(back.entries.len(), 3);
    assert_eq!(back.entries[2].salt, [2u8; 16]);
    assert_eq!(back.entries[2].kek_nonce, [3u8; 12]);
    assert_eq!(back.entries[2].encrypted_cek, [4u8; 32]);
    assert_eq!(back.entries[2].encrypted_cek_nonce, [5u8; 12]);
    assert_eq!(back.encrypted_verify_block, vec![0xAB; 128]);
    assert_eq!(back.verify_block_hmac, [0xCD; 32]);
    assert_eq!(back.file_hmac, [0xEF; 32]);
    assert_eq!(back.metadata_len, 4);
    assert_eq!(back.metadata, b"meta".to_vec());
}

#[test]
fn parse_with_65535_entries() {
    let h = header(65535, b"");
    let bytes = written(&h);
    assert_eq!(bytes.len(), 6 + 65535 * 72 + 192 + 4);
    let back = parse_header(&bytes).unwrap();
    assert_eq!(back.password_count, 65535);
    assert_eq!(back.entries.len(), 65535);
    assert_eq!(back.entries[65534].salt, [254u8; 16]);
    assert_eq!(back.metadata_len, 0);
}

#[test]
fn parse_refuses_wrong_magic() {
    let mut bytes = written(&header(1, b""));
    bytes[3] = b'X';
    assert_eq!(parse_header(&bytes).err(), Some(Error::InvalidFormat));
    assert_eq!(decrypt_file(&bytes, "p").err(), Some(Error::InvalidFormat));
    assert_eq!(update_metadata(&bytes, Vec::new()).err(), Some(Error::InvalidFormat));
}

#[test]
fn parse_refuses_short_input() {
    let bytes = written(&header(1, b""));
    assert_eq!(parse_header(&[]).err(), Some(Error::InvalidFormat));
    assert_eq!(parse_header(b"WCRY").err(), Some(Error::InvalidFormat));
    assert_eq!(parse_header(&bytes[..5]).err(), Some(Error::InvalidFormat));
    assert_eq!(parse_header(&bytes[..6 + 71]).err(), Some(Error::InvalidFormat));
    assert_eq!(parse_header(&bytes[..6 + 72 + 191]).err(), Some(Error::InvalidFormat));
    assert!(parse_header(&bytes[..6 + 72 + 192]).is_ok());
}

#[test]
fn parse_treats_a_short_tail_as_legacy_body() {
    let bytes = written(&header(1, b""));
    let fixed = 6 + 72 + 192;
    for extra in 0..4usize {
        let mut legacy = bytes[..fixed].to_vec();
        legacy.extend_from_slice(&[0x11, 0x22, 0x33][..extra]);
        let (h, body_at) = parse_envelope(&legacy).unwrap();
        assert_eq!(h.metadata_len, 0);
        assert!(h.metadata.is_empty());
        assert_eq!(body_at, fixed);
    }
}

#[test]
fn parse_refuses_metadata_cut_short() {
    let mut bytes = written(&header(1, b"abcdef"));
    bytes.truncate(bytes.len() - 1);
    assert_eq!(parse_header(&bytes).err(), Some(Error::InvalidFormat));
}

#[test]
fn parse_refuses_declared_length_of_u32_max() {
    let mut bytes = written(&header(1, b""));
    let at = bytes.len() - 4;
    bytes[at..].copy_from_slice(&[0xFF, 0xFF, 0xFF, 0xFF]);
    bytes.extend_from_slice(&[0u8; 100]);
    assert_eq!(parse_header(&bytes).err(), Some(Error::InvalidFormat));
}

#[test]
fn parse_accepts_zero_entries_and_decrypt_refuses_the_password() {
    let bytes = written(&header(0, b"m"));
    let h = parse_header(&bytes).unwrap();
    assert_eq!(h.password_count, 0);
    assert!(h.entries.is_empty());
    assert_eq!(decrypt_file(&bytes, "any").err(), Some(Error::WrongPassword));
}

#[test]
fn encrypt_refuses_bad_password_counts() {
    assert_eq!(encrypt_file(b"x", &[], None).err(), Some(Error::BadArgument));
    let many: Vec<String> = (0..65536).map(|_| String::from("p")).collect();
    assert_eq!(encrypt_file(b"x", &many, None).err(), Some(Error::BadArgument));
    let env = encrypt_file(b"x", &["p".to_string()], None).unwrap();
    assert_eq!(reset_passwords(&env, "p", &[]).err(), Some(Error::BadArgument));
    assert_eq!(reset_passwords(&env, "p", &many).err(), Some(Error::BadArgument));
}

#[test]
fn reset_passwords_refuses_the_wrong_old_password() {
    let env = encrypt_file(b"x", &["p".to_string()], None).unwrap();
    assert_eq!(
        reset_passwords(&env, "q", &["n".to_string()]).err(),
        Some(Error::WrongPassword)
    );
    assert_eq!(
        reset_passwords(b"WCRX", "p", &["n".to_string()]).err(),
        Some(Error::InvalidFormat)
    );
}

#[test]
fn update_metadata_on_legacy_envelope_keeps_the_body() {
    let env = encrypt_file(b"xyz", &["p".to_string()], None).unwrap();
    let fixed = 6 + 72 + 192;
    let mut legacy = env[..fixed].to_vec();
    legacy.extend_from_slice(&env[fixed + 4..]);
    let updated = update_metadata(&legacy, b"new".to_vec()).unwrap();
    assert_eq!(&updated[..fixed], &env[..fixed]);
    assert_eq!(&updated[fixed..fixed + 4], &[0, 0, 0, 3]);
    assert_eq!(&updated[fixed + 4..fixed + 7], b"new");
    assert_eq!(&updated[fixed + 7..], &env[fixed + 4..]);
    let out = decrypt_file(&updated, "p").unwrap();
    assert!(out.body_mac_matched);
    assert_eq!(out.plaintext, b"xyz".to_vec());
    assert_eq!(out.metadata, b"new".to_vec());
}

#[test]
fn update_metadata_to_empty() {
    let env = encrypt_file(b"d", &["p".to_string()], Some(b"long metadata")).unwrap();
    let updated = update_metadata(&env, Vec::new()).unwrap();
    assert_eq!(updated.len(), env.len() - 13);
    let h = parse_header(&updated).unwrap();
    assert_eq!(h.metadata_len, 0);
    let out = decrypt_file(&updated, "p").unwrap();
    assert!(out.body_mac_matched);
    assert_eq!(out.plaintext, b"d".to_vec());
}

#[test]
fn error_messages_differ() {
    assert_ne!(Error::BadArgument.message(), Error::InvalidFormat.message());
    assert_ne!(Error::InvalidFormat.message(), Error::WrongPassword.message());
}

#[test]
fn decrypt_with_65535_entries() {
    let env = encrypt_file(b"wide", &["p".to_string()], Some(b"m")).unwrap();
    let mut h = parse_header(&env).unwrap();
    let body = env[env.len() - 4..].to_vec();
    while h.entries.len() < 65535 {
        let tag = h.entries.len() as u8;
        h.entries.push(entry(tag));
    }
    h.password_count = 65535;
    let mut wide = written(&h);
    wide.extend_from_slice(&body);
    assert_eq!(wide.len(), 6 + 65535 * 72 + 192 + 4 + 1 + 4);
    let out = decrypt_file(&wide, "p").unwrap();
    assert!(out.body_mac_matched);
    assert_eq!(out.plaintext, b"wide".to_vec());
    assert_eq!(out.metadata, b"m".to_vec());
}
