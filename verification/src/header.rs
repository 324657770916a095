//! The fixed 70-byte header that opens every cache file: a magic, a format
//! version, the encryption flag, the encoder scalars the artifact was made
//! with, a SHA-256 checksum of the plaintext payload, and the AEAD nonce
//! used when the payload is encrypted. Sixteen bytes are reserved: written
//! as zero, ignored on read.

use vstd::prelude::*;

verus! {

/// Total length of the serialized header.
pub const HEADER_SIZE: usize = 70;

/// Why a byte string failed to parse as a header.
#[derive(Debug, Clone, Copy, PartialEq, Eq, Structural)]
pub enum HeaderError {
    /// Fewer than `HEADER_SIZE` bytes.
    TooSmall,
    /// The first four bytes are not the magic.
    BadMagic,
    /// The version byte is not the supported version.
    BadVersion,
}

/// The mathematical content of a header: what the 70 bytes carry, with the
/// reserved region left out.
pub struct HeaderModel {
    pub encrypted: u8,
    pub quality: u8,
    pub speed: u8,
    pub chroma: u16,
    pub checksum: Seq<u8>,
    pub nonce: Seq<u8>,
}

/// A parsed or constructed cache file header.
#[derive(Debug, Clone)]
pub struct CacheFileHeader {
    /// 1 when the payload is AES-256-GCM ciphertext, 0 when plaintext.
    pub encrypted: u8,
    pub quality: u8,
    pub speed: u8,
    pub chroma: u16,
    /// SHA-256 of the plaintext payload; 32 bytes.
    pub checksum: Vec<u8>,
    /// AEAD nonce when encrypted, zero otherwise; 12 bytes.
    pub nonce: Vec<u8>,
}

impl View for CacheFileHeader {
    type V = HeaderModel;

    open spec fn view(&self) -> HeaderModel {
        HeaderModel {
            encrypted: self.encrypted,
            quality: self.quality,
            speed: self.speed,
            chroma: self.chroma,
            checksum: self.checksum@,
            nonce: self.nonce@,
        }
    }
}

/// Well-formed: checksum and nonce have their fixed lengths.
pub open spec fn header_wf(h: HeaderModel) -> bool {
    h.checksum.len() == 32 && h.nonce.len() == 12
}

/// The exact 70 bytes of a serialized header: magic `FHIC`, version 1,
/// flag, quality, speed, chroma big-endian, 16 zero bytes, checksum, nonce.
pub open spec fn spec_header_bytes(h: HeaderModel) -> Seq<u8> {
    seq![
        70u8,
        72u8,
        73u8,
        67u8,
        1u8,
        h.encrypted,
        h.quality,
        h.speed,
        (h.chroma / 256) as u8,
        (h.chroma % 256) as u8,
    ] + Seq::new(16, |i: int| 0u8) + h.checksum + h.nonce
}

/// What a byte string parses to: the header fields read back, or the first
/// applicable fault. Reserved bytes are ignored; trailing bytes beyond the
/// header are not the parser's concern.
pub open spec fn spec_parse_header(b: Seq<u8>) -> Result<HeaderModel, HeaderError> {
    if b.len() < 70 {
        Err(HeaderError::TooSmall)
    } else if !(b[0] == 70 && b[1] == 72 && b[2] == 73 && b[3] == 67) {
        Err(HeaderError::BadMagic)
    } else if b[4] != 1 {
        Err(HeaderError::BadVersion)
    } else {
        Ok(
            HeaderModel {
                encrypted: b[5],
                quality: b[6],
                speed: b[7],
                chroma: (b[8] * 256 + b[9]) as u16,
                checksum: b.subrange(26, 58),
                nonce: b.subrange(58, 70),
            },
        )
    }
}

impl CacheFileHeader {
    /// A header for a plaintext payload with the given checksum; the nonce
    /// field is zero.
    pub fn new_unencrypted(payload_checksum: Vec<u8>, quality: u8, speed: u8, chroma: u16) -> (r:
        CacheFileHeader)
        requires
            payload_checksum@.len() == 32,
        ensures
            header_wf(r@),
            r@.encrypted == 0,
            r@.quality == quality,
            r@.speed == speed,
            r@.chroma == chroma,
            r@.checksum == payload_checksum@,
            r@.nonce == Seq::new(12, |i: int| 0u8),
    {
        let mut nonce: Vec<u8> = Vec::new();
        let mut i: usize = 0;
        while i < 12
            invariant
                i <= 12,
                nonce@.len() == i,
                forall|j: int| 0 <= j < i ==> nonce@[j] == 0u8,
            decreases 12 - i,
        {
            nonce.push(0u8);
            i = i + 1;
        }
        proof {
            assert(nonce@ =~= Seq::new(12, |i: int| 0u8));
        }
        CacheFileHeader { encrypted: 0, quality, speed, chroma, checksum: payload_checksum, nonce }
    }

    /// A header for an AES-256-GCM payload carrying the nonce it was
    /// sealed with.
    pub fn new_encrypted(
        payload_checksum: Vec<u8>,
        nonce: Vec<u8>,
        quality: u8,
        speed: u8,
        chroma: u16,
    ) -> (r: CacheFileHeader)
        requires
            payload_checksum@.len() == 32,
            nonce@.len() == 12,
        ensures
            header_wf(r@),
            r@.encrypted == 1,
            r@.quality == quality,
            r@.speed == speed,
            r@.chroma == chroma,
            r@.checksum == payload_checksum@,
            r@.nonce == nonce@,
    {
        CacheFileHeader { encrypted: 1, quality, speed, chroma, checksum: payload_checksum, nonce }
    }

    /// Serializes the header into its exact 70-byte layout.
    pub fn to_bytes(&self) -> (r: Vec<u8>)
        requires
            header_wf(self@),
        ensures
            r@ == spec_header_bytes(self@),
            r@.len() == 70,
    {
        let mut bytes: Vec<u8> = Vec::new();
        bytes.push(70u8);
        bytes.push(72u8);
        bytes.push(73u8);
        bytes.push(67u8);
        bytes.push(1u8);
        bytes.push(self.encrypted);
        bytes.push(self.quality);
        bytes.push(self.speed);
        bytes.push((self.chroma / 256) as u8);
        bytes.push((self.chroma % 256) as u8);
        proof {
            assert(forall|j: int|
                0 <= j < 10 ==> bytes@[j] == #[trigger] spec_header_bytes(self@)[j]);
        }
        let mut i: usize = 0;
        while i < 16
            invariant
                i <= 16,
                bytes@.len() == 10 + i,
                forall|j: int| 0 <= j < 10 ==> bytes@[j] == #[trigger] spec_header_bytes(self@)[j],
                forall|j: int| 10 <= j < 10 + i ==> bytes@[j] == 0u8,
            decreases 16 - i,
        {
            bytes.push(0u8);
            i = i + 1;
        }
        bytes.extend_from_slice(self.checksum.as_slice());
        bytes.extend_from_slice(self.nonce.as_slice());
        proof {
            assert(bytes@ =~= spec_header_bytes(self@));
        }
        bytes
    }

    /// Parses a header from the start of `bytes`, rejecting short input,
    /// a wrong magic, or an unsupported version.
    pub fn from_bytes(bytes: &[u8]) -> (r: Result<CacheFileHeader, HeaderError>)
        ensures
            match r {
                Ok(h) => spec_parse_header(bytes@) == Ok::<HeaderModel, HeaderError>(h@)
                    && header_wf(h@),
                Err(e) => spec_parse_header(bytes@) == Err::<HeaderModel, HeaderError>(e),
            },
    {
        if bytes.len() < 70 {
            return Err(HeaderError::TooSmall);
        }
        if !(bytes[0] == 70 && bytes[1] == 72 && bytes[2] == 73 && bytes[3] == 67) {
            return Err(HeaderError::BadMagic);
        }
        if bytes[4] != 1 {
            return Err(HeaderError::BadVersion);
        }
        let chroma: u16 = (bytes[8] as u16) * 256 + (bytes[9] as u16);
        let mut checksum: Vec<u8> = Vec::new();
        checksum.extend_from_slice(&bytes[26..58]);
        let mut nonce: Vec<u8> = Vec::new();
        nonce.extend_from_slice(&bytes[58..70]);
        proof {
            assert(checksum@ =~= bytes@.subrange(26, 58));
            assert(nonce@ =~= bytes@.subrange(58, 70));
        }
        Ok(
            CacheFileHeader {
                encrypted: bytes[5],
                quality: bytes[6],
                speed: bytes[7],
                chroma,
                checksum,
                nonce,
            },
        )
    }

    /// Whether the payload this header describes is encrypted.
    pub fn is_encrypted(&self) -> (r: bool)
        ensures
            r == (self@.encrypted == 1),
    {
        self.encrypted == 1
    }

    /// Whether the stored encoder scalars equal the requested ones.
    pub fn matches_heic_settings(&self, quality: u8, speed: u8, chroma: u16) -> (r: bool)
        ensures
            r == (self@.quality == quality && self@.speed == speed && self@.chroma == chroma),
    {
        self.quality == quality && self.speed == speed && self.chroma == chroma
    }
}

/// Serialization and parsing are inverse: a well-formed header read back
/// from its own bytes yields the same model.
pub proof fn lemma_header_round_trip(h: HeaderModel)
    requires
        header_wf(h),
    ensures
        spec_parse_header(spec_header_bytes(h)) == Ok::<HeaderModel, HeaderError>(h),
{
    let b = spec_header_bytes(h);
    assert(b.len() == 70);
    assert(b[0] == 70 && b[1] == 72 && b[2] == 73 && b[3] == 67);
    assert(b[4] == 1);
    assert(b[8] * 256 + b[9] == h.chroma) by {
        assert(b[8] == h.chroma / 256 && b[9] == h.chroma % 256);
    }
    assert(b.subrange(26, 58) =~= h.checksum);
    assert(b.subrange(58, 70) =~= h.nonce);
    let parsed = spec_parse_header(b)->Ok_0;
    assert(parsed =~= h);
}

} // verus!
