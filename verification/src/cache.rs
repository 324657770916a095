//! The content-addressed artifact cache: key derivation from source
//! identity and encoder parameters, the authenticated (optionally
//! encrypted) cache file codec, and the shard path a key maps to.
//!
//! A cache file is the 70-byte header of [`crate::header`] followed by the
//! payload: the artifact bytes themselves, or their AES-256-GCM ciphertext
//! under a key derived from the source path. Decoding validates everything
//! the header promises and yields the plaintext or the first fault found;
//! a caller deletes the file on any fault.

use vstd::prelude::*;
use vstd::bytes::{spec_u16_to_le_bytes, spec_u64_to_le_bytes, u16_to_le_bytes, u64_to_le_bytes};
use vstd::string::{StringSliceAdditionalSpecFns, StrSliceExecFns};
use vstd::utf8::encode_utf8;
use crate::ascii::bytes_eq;
use crate::config::HeicSettings;
use crate::crypto::{fresh_nonce, gcm_decrypt, gcm_encrypt, spec_gcm_unseal};
use crate::hashing::{hex_encode, lemma_hex_lower_ascii, lemma_hex_lower_len, sha256,
    spec_hex_lower, spec_sha256};
use crate::header::{header_wf, spec_header_bytes, spec_parse_header, CacheFileHeader, HeaderError,
    HeaderModel, HEADER_SIZE};

verus! {

/// A cached artifact held in memory, with its size in bytes.
#[derive(Debug, Clone)]
pub struct CacheEntry {
    pub data: Vec<u8>,
    pub size: u64,
}

/// The runtime sidecar of a cache operation: the host path the artifact
/// came from (which derives the encryption key) and the encoder parameters
/// a stored entry must match.
#[derive(Debug)]
pub struct CacheContext {
    pub filepath: String,
    pub heic_settings: HeicSettings,
}

impl CacheContext {
    pub fn new(filepath: String, heic_settings: HeicSettings) -> (r: CacheContext)
        ensures
            r.filepath == filepath,
            r.heic_settings == heic_settings,
    {
        CacheContext { filepath, heic_settings }
    }
}

/// The bytes hashed into a cache key: the source path, its size as eight
/// little-endian bytes, quality, speed, chroma little-endian, and the raw
/// resolution-limit string when one is set.
pub open spec fn spec_cache_key_message(
    path: Seq<u8>,
    original_size: u64,
    quality: u8,
    speed: u8,
    chroma: u16,
    res: Option<Seq<u8>>,
) -> Seq<u8> {
    path + spec_u64_to_le_bytes(original_size) + seq![quality, speed] + spec_u16_to_le_bytes(chroma)
        + match res {
        Some(b) => b,
        None => Seq::empty(),
    }
}

/// A cache key: the lowercase hex of the SHA-256 of the key message.
/// A function of its inputs alone, so stable across processes.
pub open spec fn spec_cache_key(
    path: Seq<u8>,
    original_size: u64,
    quality: u8,
    speed: u8,
    chroma: u16,
    res: Option<Seq<u8>>,
) -> Seq<char> {
    spec_hex_lower(spec_sha256(spec_cache_key_message(path, original_size, quality, speed, chroma, res)))
}

/// The raw bytes of a setting's resolution-limit string, when one is set.
pub open spec fn spec_settings_res_bytes(settings: HeicSettings) -> Option<Seq<u8>> {
    match settings.max_resolution {
        Some(s) => Some(encode_utf8(s@)),
        None => None,
    }
}

/// Derives the cache key for a source file and encoder parameters:
/// 64 lowercase hex characters of a SHA-256 over path, size and parameters.
pub fn create_cache_key(filepath: &str, original_size: u64, heic_settings: &HeicSettings) -> (r:
    String)
    ensures
        r@ == spec_cache_key(
            filepath.spec_bytes(),
            original_size,
            heic_settings.quality,
            heic_settings.speed,
            heic_settings.chroma,
            spec_settings_res_bytes(*heic_settings),
        ),
        r@.len() == 64,
        vstd::utf8::is_ascii_chars(r@),
{
    let mut message: Vec<u8> = Vec::new();
    message.extend_from_slice(filepath.as_bytes());
    let size_bytes = u64_to_le_bytes(original_size);
    message.extend_from_slice(size_bytes.as_slice());
    message.push(heic_settings.quality);
    message.push(heic_settings.speed);
    let chroma_bytes = u16_to_le_bytes(heic_settings.chroma);
    message.extend_from_slice(chroma_bytes.as_slice());
    match &heic_settings.max_resolution {
        Some(res) => {
            message.extend_from_slice(res.as_str().as_bytes());
        },
        None => {},
    }
    proof {
        assert(message@ =~= spec_cache_key_message(
            filepath.spec_bytes(),
            original_size,
            heic_settings.quality,
            heic_settings.speed,
            heic_settings.chroma,
            spec_settings_res_bytes(*heic_settings),
        ));
    }
    let digest = sha256(message.as_slice());
    let key = hex_encode(digest.as_slice());
    proof {
        lemma_hex_lower_len(digest@);
        lemma_hex_lower_ascii(digest@);
    }
    key
}

/// Derives both the cache key and the context for a source path.
pub fn create_cache_key_and_context_for_path(
    filepath: &str,
    original_size: u64,
    heic_settings: &HeicSettings,
) -> (r: (String, CacheContext))
    ensures
        r.0@ == spec_cache_key(
            filepath.spec_bytes(),
            original_size,
            heic_settings.quality,
            heic_settings.speed,
            heic_settings.chroma,
            spec_settings_res_bytes(*heic_settings),
        ),
        r.1.filepath@ == filepath@,
        r.1.heic_settings.quality == heic_settings.quality,
        r.1.heic_settings.speed == heic_settings.speed,
        r.1.heic_settings.chroma == heic_settings.chroma,
        spec_settings_res_bytes(r.1.heic_settings) == spec_settings_res_bytes(*heic_settings),
{
    let key = create_cache_key(filepath, original_size, heic_settings);
    let context = CacheContext::new(filepath.to_owned(), heic_settings.duplicate());
    (key, context)
}

/// The per-source-file encryption key: SHA-256 of the host path followed
/// by a fixed domain-separation suffix. Moving the source file invalidates
/// its cache entries by design.
pub open spec fn spec_encryption_key(path: Seq<u8>) -> Seq<u8> {
    spec_sha256(path + "fuse-img2heic-encryption-key".spec_bytes())
}

/// Derives the 32-byte AES-256-GCM key for a source path.
pub fn derive_encryption_key(filepath: &str) -> (r: Vec<u8>)
    ensures
        r@ == spec_encryption_key(filepath.spec_bytes()),
        r@.len() == 32,
{
    let mut message: Vec<u8> = Vec::new();
    message.extend_from_slice(filepath.as_bytes());
    message.extend_from_slice("fuse-img2heic-encryption-key".as_bytes());
    proof {
        assert(message@ =~= filepath.spec_bytes() + "fuse-img2heic-encryption-key".spec_bytes());
    }
    sha256(message.as_slice())
}

/// Why loading a cache file failed. Any fault makes the file eligible
/// for deletion.
#[derive(Debug, Clone, Copy, PartialEq, Eq, Structural)]
pub enum CacheFault {
    /// Shorter than the fixed header.
    FileTooShort,
    /// The magic bytes are wrong.
    BadMagic,
    /// The format version is unsupported.
    BadVersion,
    /// The stored encoder parameters differ from the requested ones.
    ParamsMismatch,
    /// The payload is encrypted but encryption is disabled.
    EncryptionDisabled,
    /// AEAD authentication failed.
    AuthFailed,
    /// The plaintext checksum does not match the header.
    ChecksumMismatch,
}

/// What decoding a cache file yields: the plaintext payload when the
/// header parses, the stored parameters equal the requested ones, the
/// payload decrypts (when encrypted), and the plaintext SHA-256 equals the
/// stored checksum — or the first fault, in that order.
pub open spec fn spec_decode_cache_file(
    file: Seq<u8>,
    path: Seq<u8>,
    quality: u8,
    speed: u8,
    chroma: u16,
    encryption_enabled: bool,
) -> Result<Seq<u8>, CacheFault> {
    match spec_parse_header(file) {
        Err(HeaderError::TooSmall) => Err(CacheFault::FileTooShort),
        Err(HeaderError::BadMagic) => Err(CacheFault::BadMagic),
        Err(HeaderError::BadVersion) => Err(CacheFault::BadVersion),
        Ok(h) => {
            if !(h.quality == quality && h.speed == speed && h.chroma == chroma) {
                Err(CacheFault::ParamsMismatch)
            } else {
                let payload = file.skip(70);
                if h.encrypted == 1 {
                    if !encryption_enabled {
                        Err(CacheFault::EncryptionDisabled)
                    } else {
                        match spec_gcm_unseal(spec_encryption_key(path), h.nonce, payload) {
                            Some(pt) => if spec_sha256(pt) == h.checksum {
                                Ok(pt)
                            } else {
                                Err(CacheFault::ChecksumMismatch)
                            },
                            None => Err(CacheFault::AuthFailed),
                        }
                    }
                } else {
                    if spec_sha256(payload) == h.checksum {
                        Ok(payload)
                    } else {
                        Err(CacheFault::ChecksumMismatch)
                    }
                }
            }
        },
    }
}

/// Decodes and validates a stored cache file against the requested
/// encoder parameters, returning the plaintext artifact or the first
/// fault found. On a fault the caller deletes the file and treats the
/// lookup as a miss.
pub fn decode_cache_file(
    file: &[u8],
    filepath: &str,
    heic_settings: &HeicSettings,
    encryption_enabled: bool,
) -> (r: Result<Vec<u8>, CacheFault>)
    ensures
        match r {
            Ok(data) => spec_decode_cache_file(
                file@,
                filepath.spec_bytes(),
                heic_settings.quality,
                heic_settings.speed,
                heic_settings.chroma,
                encryption_enabled,
            ) == Ok::<Seq<u8>, CacheFault>(data@),
            Err(e) => spec_decode_cache_file(
                file@,
                filepath.spec_bytes(),
                heic_settings.quality,
                heic_settings.speed,
                heic_settings.chroma,
                encryption_enabled,
            ) == Err::<Seq<u8>, CacheFault>(e),
        },
{
    let header = match CacheFileHeader::from_bytes(file) {
        Ok(h) => h,
        Err(HeaderError::TooSmall) => {
            return Err(CacheFault::FileTooShort);
        },
        Err(HeaderError::BadMagic) => {
            return Err(CacheFault::BadMagic);
        },
        Err(HeaderError::BadVersion) => {
            return Err(CacheFault::BadVersion);
        },
    };
    if !header.matches_heic_settings(
        heic_settings.quality,
        heic_settings.speed,
        heic_settings.chroma,
    ) {
        return Err(CacheFault::ParamsMismatch);
    }
    let payload: &[u8] = &file[HEADER_SIZE..file.len()];
    proof {
        assert(payload@ =~= file@.skip(70));
    }
    let plaintext: Vec<u8> = if header.is_encrypted() {
        if !encryption_enabled {
            return Err(CacheFault::EncryptionDisabled);
        }
        let key = derive_encryption_key(filepath);
        match gcm_decrypt(key.as_slice(), header.nonce.as_slice(), payload) {
            Some(pt) => pt,
            None => {
                return Err(CacheFault::AuthFailed);
            },
        }
    } else {
        let mut v: Vec<u8> = Vec::new();
        v.extend_from_slice(payload);
        proof {
            assert(v@ =~= payload@);
        }
        v
    };
    let computed = sha256(plaintext.as_slice());
    if !bytes_eq(computed.as_slice(), header.checksum.as_slice()) {
        return Err(CacheFault::ChecksumMismatch);
    }
    Ok(plaintext)
}

/// A parsed header followed by any payload parses back to itself.
proof fn lemma_header_parse_with_payload(h: HeaderModel, payload: Seq<u8>)
    requires
        header_wf(h),
    ensures
        spec_parse_header(spec_header_bytes(h) + payload) == Ok::<HeaderModel, HeaderError>(h),
{
    let b = spec_header_bytes(h) + payload;
    assert(spec_header_bytes(h).len() == 70);
    assert(b.len() >= 70);
    assert(b[0] == 70 && b[1] == 72 && b[2] == 73 && b[3] == 67);
    assert(b[4] == 1);
    assert(b[8] * 256 + b[9] == h.chroma) by {
        assert(b[8] == h.chroma / 256 && b[9] == h.chroma % 256);
    }
    assert(b.subrange(26, 58) =~= h.checksum);
    assert(b.subrange(58, 70) =~= h.nonce);
    let parsed = spec_parse_header(b)->Ok_0;
    assert(parsed =~= h);
}

/// Serializes an artifact into a cache file for the given source path and
/// parameters. When `encrypt` is set the payload is sealed under the
/// path-derived key with a fresh nonce; otherwise the payload is the
/// plaintext itself. Either way the produced file decodes back to exactly
/// the artifact under the same parameters, and decodes to a parameter
/// fault under any others. Success is owed for every artifact up to the
/// cipher's length bound of 2^36 bytes: encoding returns nothing only for
/// an encrypted artifact beyond it.
pub fn encode_cache_file(
    data: &[u8],
    filepath: &str,
    heic_settings: &HeicSettings,
    encrypt: bool,
) -> (r: Option<Vec<u8>>)
    ensures
        match r {
            Some(file) => {
                &&& spec_decode_cache_file(
                    file@,
                    filepath.spec_bytes(),
                    heic_settings.quality,
                    heic_settings.speed,
                    heic_settings.chroma,
                    true,
                ) == Ok::<Seq<u8>, CacheFault>(data@)
                &&& (!encrypt ==> spec_decode_cache_file(
                    file@,
                    filepath.spec_bytes(),
                    heic_settings.quality,
                    heic_settings.speed,
                    heic_settings.chroma,
                    false,
                ) == Ok::<Seq<u8>, CacheFault>(data@))
                &&& forall|q2: u8, s2: u8, c2: u16|
                    !(q2 == heic_settings.quality && s2 == heic_settings.speed && c2
                        == heic_settings.chroma) ==> spec_decode_cache_file(
                        file@,
                        filepath.spec_bytes(),
                        q2,
                        s2,
                        c2,
                        true,
                    ) == Err::<Seq<u8>, CacheFault>(CacheFault::ParamsMismatch)
                &&& file@.len() >= 70
            },
            None => encrypt && data@.len() > 0x10_0000_0000,
        },
{
    let checksum = sha256(data);
    let (header, payload): (CacheFileHeader, Vec<u8>) = if encrypt {
        let key = derive_encryption_key(filepath);
        let nonce = fresh_nonce();
        let ciphertext = match gcm_encrypt(key.as_slice(), nonce.as_slice(), data) {
            Some(ct) => ct,
            None => {
                return None;
            },
        };
        let header = CacheFileHeader::new_encrypted(
            checksum,
            nonce,
            heic_settings.quality,
            heic_settings.speed,
            heic_settings.chroma,
        );
        (header, ciphertext)
    } else {
        let mut v: Vec<u8> = Vec::new();
        v.extend_from_slice(data);
        proof {
            assert(v@ =~= data@);
        }
        let header = CacheFileHeader::new_unencrypted(
            checksum,
            heic_settings.quality,
            heic_settings.speed,
            heic_settings.chroma,
        );
        (header, v)
    };
    let ghost hm: HeaderModel = header@;
    let mut file = header.to_bytes();
    file.extend_from_slice(payload.as_slice());
    proof {
        lemma_header_parse_with_payload(hm, payload@);
        assert(file@ =~= spec_header_bytes(hm) + payload@);
        assert(file@.skip(70) =~= payload@);
    }
    Some(file)
}

/// The round-trip law for plaintext entries: a file made of the
/// unencrypted header for an artifact — carrying its SHA-256 and the
/// encoder parameters — followed by the artifact itself decodes back to
/// exactly that artifact under the same parameters, whether or not
/// encryption is enabled.
pub proof fn lemma_plain_round_trip(
    data: Seq<u8>,
    path: Seq<u8>,
    quality: u8,
    speed: u8,
    chroma: u16,
    encryption_enabled: bool,
    checksum: Seq<u8>,
)
    requires
        checksum.len() == 32,
        checksum == spec_sha256(data),
    ensures
        spec_decode_cache_file(
            spec_header_bytes(
                HeaderModel {
                    encrypted: 0,
                    quality,
                    speed,
                    chroma,
                    checksum,
                    nonce: Seq::new(12, |i: int| 0u8),
                },
            ) + data,
            path,
            quality,
            speed,
            chroma,
            encryption_enabled,
        ) == Ok::<Seq<u8>, CacheFault>(data),
{
    let h = HeaderModel {
        encrypted: 0,
        quality,
        speed,
        chroma,
        checksum,
        nonce: Seq::new(12, |i: int| 0u8),
    };
    lemma_header_parse_with_payload(h, data);
    let file = spec_header_bytes(h) + data;
    assert(file.skip(70) =~= data);
}

/// The shard directory and file name a key is stored under: the first two
/// characters name the shard, the rest name the file.
pub fn get_cache_file_path(cache_key: &str) -> (r: (String, String))
    requires
        cache_key@.len() > 2,
        vstd::utf8::is_ascii_chars(cache_key@),
    ensures
        r.0@ == cache_key@.subrange(0, 2),
        r.1@ == cache_key@.subrange(2, cache_key@.len() as int),
{
    let n: usize = cache_key.unicode_len();
    let subdir = cache_key.substring_ascii(0, 2);
    let rest = cache_key.substring_ascii(2, n);
    (subdir.to_owned(), rest.to_owned())
}

} // verus!
