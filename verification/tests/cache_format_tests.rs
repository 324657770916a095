use fuse_img2heic::cache::{
    get_cache_file_path, create_cache_key, create_cache_key_and_context_for_path,
    decode_cache_file, derive_encryption_key, encode_cache_file, CacheFault,
};
use fuse_img2heic::config::HeicSettings;
use fuse_img2heic::header::{CacheFileHeader, HeaderError, HEADER_SIZE};
use sha2::Digest;

fn settings(quality: u8, speed: u8, chroma: u16) -> HeicSettings {
    HeicSettings::new(quality, speed, chroma, None)
}

#[test]
fn header_round_trips_bit_exactly() {
    let checksum: Vec<u8> = (0u8..32).collect();
    let h = CacheFileHeader::new_unencrypted(checksum.clone(), 80, 5, 420);
    let bytes = h.to_bytes();
    assert_eq!(bytes.len(), HEADER_SIZE);
    assert_eq!(&bytes[0..4], b"FHIC");
    assert_eq!(bytes[4], 1); // version
    assert_eq!(bytes[5], 0); // unencrypted
    assert_eq!(bytes[6], 80);
    assert_eq!(bytes[7], 5);
    assert_eq!(&bytes[8..10], &[1, 164]); // 420 big-endian
    assert_eq!(&bytes[10..26], &[0u8; 16]); // reserved
    assert_eq!(&bytes[26..58], checksum.as_slice());
    assert_eq!(&bytes[58..70], &[0u8; 12]); // zero nonce

    let parsed = CacheFileHeader::from_bytes(&bytes).unwrap();
    assert!(!parsed.is_encrypted());
    assert!(parsed.matches_heic_settings(80, 5, 420));
    assert!(!parsed.matches_heic_settings(81, 5, 420));
    assert_eq!(parsed.checksum, checksum);
}

#[test]
fn header_rejects_bad_input() {
    let checksum: Vec<u8> = vec![7u8; 32];
    let h = CacheFileHeader::new_unencrypted(checksum, 50, 4, 420);
    let good = h.to_bytes();

    assert_eq!(CacheFileHeader::from_bytes(&good[..69]).err(), Some(HeaderError::TooSmall));

    let mut bad_magic = good.clone();
    bad_magic[0] = b'X';
    assert_eq!(CacheFileHeader::from_bytes(&bad_magic).err(), Some(HeaderError::BadMagic));

    let mut bad_version = good.clone();
    bad_version[4] = 2;
    assert_eq!(CacheFileHeader::from_bytes(&bad_version).err(), Some(HeaderError::BadVersion));
}

#[test]
fn cache_key_matches_its_definition() {
    // The key is the lowercase hex of a SHA-256 over path, size
    // little-endian, quality, speed, chroma little-endian.
    let s = settings(50, 4, 420);
    let key = create_cache_key("/src/photo.jpg", 123456, &s);

    let mut hasher = sha2::Sha256::new();
    hasher.update("/src/photo.jpg".as_bytes());
    hasher.update(123456u64.to_le_bytes());
    hasher.update([50u8]);
    hasher.update([4u8]);
    hasher.update(420u16.to_le_bytes());
    let expected = hex::encode(hasher.finalize());
    assert_eq!(key, expected);
}

#[test]
fn cache_key_is_deterministic_and_input_sensitive() {
    let s = settings(50, 4, 420);
    let k1 = create_cache_key("/src/photo.jpg", 1000, &s);
    let k2 = create_cache_key("/src/photo.jpg", 1000, &s);
    assert_eq!(k1, k2);
    assert_eq!(k1.len(), 64);
    assert!(k1.chars().all(|c| c.is_ascii_hexdigit() && !c.is_ascii_uppercase()));

    assert_ne!(k1, create_cache_key("/src/other.jpg", 1000, &s));
    assert_ne!(k1, create_cache_key("/src/photo.jpg", 1001, &s));
    assert_ne!(k1, create_cache_key("/src/photo.jpg", 1000, &settings(80, 4, 420)));
    assert_ne!(k1, create_cache_key("/src/photo.jpg", 1000, &settings(50, 5, 420)));
    assert_ne!(k1, create_cache_key("/src/photo.jpg", 1000, &settings(50, 4, 422)));
    let with_res = HeicSettings::new(50, 4, 420, Some("2560,1440".to_string()));
    assert_ne!(k1, create_cache_key("/src/photo.jpg", 1000, &with_res));
}

#[test]
fn key_and_context_share_inputs() {
    let s = settings(50, 4, 420);
    let (key, context) = create_cache_key_and_context_for_path("/src/a.png", 42, &s);
    assert_eq!(key, create_cache_key("/src/a.png", 42, &s));
    assert_eq!(context.filepath, "/src/a.png");
    assert_eq!(context.heic_settings.quality, 50);
    assert_eq!(context.heic_settings.chroma, 420);
}

#[test]
fn shard_path_splits_the_key() {
    let key = create_cache_key("/src/photo.jpg", 9, &settings(50, 4, 420));
    let (shard, file) = get_cache_file_path(key.as_str());
    assert_eq!(shard.len(), 2);
    assert_eq!(file.len(), 62);
    assert_eq!(format!("{shard}{file}"), key);
}

#[test]
fn encryption_key_matches_its_definition() {
    let k = derive_encryption_key("/src/photo.jpg");
    let mut hasher = sha2::Sha256::new();
    hasher.update("/src/photo.jpg".as_bytes());
    hasher.update("fuse-img2heic-encryption-key".as_bytes());
    let expected: Vec<u8> = hasher.finalize().to_vec();
    assert_eq!(k, expected);
}

#[test]
fn plain_cache_file_round_trips() {
    let s = settings(50, 4, 420);
    let data = b"converted artifact bytes".to_vec();
    let file = encode_cache_file(&data, "/src/photo.jpg", &s, false).unwrap();
    assert_eq!(file.len(), HEADER_SIZE + data.len());
    assert_eq!(decode_cache_file(&file, "/src/photo.jpg", &s, false).unwrap(), data);
    assert_eq!(decode_cache_file(&file, "/src/photo.jpg", &s, true).unwrap(), data);
}

#[test]
fn empty_artifact_round_trips() {
    let s = settings(50, 4, 420);
    let empty: Vec<u8> = Vec::new();
    let plain = encode_cache_file(&empty, "/p", &s, false).unwrap();
    assert_eq!(plain.len(), HEADER_SIZE);
    assert_eq!(decode_cache_file(&plain, "/p", &s, false).unwrap(), empty);
    let sealed = encode_cache_file(&empty, "/p", &s, true).unwrap();
    assert_eq!(decode_cache_file(&sealed, "/p", &s, true).unwrap(), empty);
}

#[test]
fn encrypted_cache_file_round_trips() {
    let s = settings(50, 4, 420);
    let data = b"secret artifact".to_vec();
    let file = encode_cache_file(&data, "/src/photo.jpg", &s, true).unwrap();
    // Ciphertext plus tag: the payload is not the plaintext.
    assert_ne!(&file[HEADER_SIZE..], data.as_slice());
    assert_eq!(decode_cache_file(&file, "/src/photo.jpg", &s, true).unwrap(), data);
}

#[test]
fn params_change_invalidates_entry() {
    let s = settings(50, 4, 420);
    let data = b"artifact".to_vec();
    let file = encode_cache_file(&data, "/src/photo.jpg", &s, false).unwrap();
    let changed = settings(80, 4, 420);
    assert_eq!(
        decode_cache_file(&file, "/src/photo.jpg", &changed, false).err(),
        Some(CacheFault::ParamsMismatch)
    );
    let changed_speed = settings(50, 5, 420);
    assert_eq!(
        decode_cache_file(&file, "/src/photo.jpg", &changed_speed, false).err(),
        Some(CacheFault::ParamsMismatch)
    );
    let changed_chroma = settings(50, 4, 444);
    assert_eq!(
        decode_cache_file(&file, "/src/photo.jpg", &changed_chroma, false).err(),
        Some(CacheFault::ParamsMismatch)
    );
}

#[test]
fn tampering_is_detected() {
    let s = settings(50, 4, 420);
    let data = b"some artifact data".to_vec();

    // Unencrypted: flipping one payload byte breaks the checksum.
    let mut plain = encode_cache_file(&data, "/src/photo.jpg", &s, false).unwrap();
    plain[HEADER_SIZE + 3] ^= 0x01;
    assert_eq!(
        decode_cache_file(&plain, "/src/photo.jpg", &s, false).err(),
        Some(CacheFault::ChecksumMismatch)
    );

    // Encrypted: flipping one ciphertext byte breaks authentication.
    let mut sealed = encode_cache_file(&data, "/src/photo.jpg", &s, true).unwrap();
    sealed[HEADER_SIZE + 3] ^= 0x01;
    assert_eq!(
        decode_cache_file(&sealed, "/src/photo.jpg", &s, true).err(),
        Some(CacheFault::AuthFailed)
    );
}

#[test]
fn wrong_source_path_cannot_open_encrypted_entry() {
    let s = settings(50, 4, 420);
    let data = b"bound to its source path".to_vec();
    let file = encode_cache_file(&data, "/src/photo.jpg", &s, true).unwrap();
    assert_eq!(
        decode_cache_file(&file, "/moved/photo.jpg", &s, true).err(),
        Some(CacheFault::AuthFailed)
    );
}

#[test]
fn malformed_files_report_the_first_fault() {
    let s = settings(50, 4, 420);
    let data = b"x".to_vec();
    let good = encode_cache_file(&data, "/p", &s, false).unwrap();

    assert_eq!(
        decode_cache_file(&good[..HEADER_SIZE - 1], "/p", &s, false).err(),
        Some(CacheFault::FileTooShort)
    );

    let mut bad_magic = good.clone();
    bad_magic[1] ^= 0xff;
    assert_eq!(decode_cache_file(&bad_magic, "/p", &s, false).err(), Some(CacheFault::BadMagic));

    let mut bad_version = good.clone();
    bad_version[4] = 9;
    assert_eq!(
        decode_cache_file(&bad_version, "/p", &s, false).err(),
        Some(CacheFault::BadVersion)
    );

    let sealed = encode_cache_file(&data, "/p", &s, true).unwrap();
    assert_eq!(
        decode_cache_file(&sealed, "/p", &s, false).err(),
        Some(CacheFault::EncryptionDisabled)
    );
}
