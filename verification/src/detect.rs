//! Format detection: classifying host files as raster images by filename
//! pattern and by content sniffing of the first bytes. Every recognized
//! image format — HEIC included — is convertible: an already-HEIC source
//! is re-encoded with the current parameters rather than passed through.

use vstd::prelude::*;
use vstd::string::StringSliceAdditionalSpecFns;
use crate::ascii::{bytes_eq, fold_eq_str, rfind_byte, spec_fold_bytes, spec_rfind_byte};

verus! {

/// The raster image formats the system recognizes.
#[derive(Debug, Clone, Copy, PartialEq, Eq, Structural)]
pub enum ImageFormat {
    Jpeg,
    Png,
    Gif,
    Heic,
    Webp,
    Bmp,
    Tiff,
}

/// The format a filename extension names, compared case-insensitively.
pub open spec fn spec_format_from_ext(ext: Seq<u8>) -> Option<ImageFormat> {
    let f = spec_fold_bytes(ext);
    if f == "jpg".spec_bytes() || f == "jpeg".spec_bytes() {
        Some(ImageFormat::Jpeg)
    } else if f == "png".spec_bytes() {
        Some(ImageFormat::Png)
    } else if f == "gif".spec_bytes() {
        Some(ImageFormat::Gif)
    } else if f == "heic".spec_bytes() || f == "heif".spec_bytes() {
        Some(ImageFormat::Heic)
    } else if f == "webp".spec_bytes() {
        Some(ImageFormat::Webp)
    } else if f == "bmp".spec_bytes() {
        Some(ImageFormat::Bmp)
    } else if f == "tif".spec_bytes() || f == "tiff".spec_bytes() {
        Some(ImageFormat::Tiff)
    } else {
        None
    }
}

/// The format a sniffed MIME type names.
pub open spec fn spec_format_from_mime(m: Seq<u8>) -> Option<ImageFormat> {
    if m == "image/jpeg".spec_bytes() {
        Some(ImageFormat::Jpeg)
    } else if m == "image/png".spec_bytes() {
        Some(ImageFormat::Png)
    } else if m == "image/gif".spec_bytes() {
        Some(ImageFormat::Gif)
    } else if m == "image/heic".spec_bytes() || m == "image/heif".spec_bytes() {
        Some(ImageFormat::Heic)
    } else if m == "image/webp".spec_bytes() {
        Some(ImageFormat::Webp)
    } else if m == "image/bmp".spec_bytes() {
        Some(ImageFormat::Bmp)
    } else if m == "image/tiff".spec_bytes() {
        Some(ImageFormat::Tiff)
    } else {
        None
    }
}

/// The MIME type content sniffing reports for a buffer, as UTF-8 bytes:
/// a function of the buffer's bytes alone.
pub uninterp spec fn spec_mime_of(data: Seq<u8>) -> Option<Seq<u8>>;

/// Relies on infer::get: the detected type, and so its MIME string,
/// depend on the buffer's bytes alone.
#[verifier::external_body]
fn sniff_mime(data: &[u8]) -> (r: Option<String>)
    ensures
        match r {
            Some(s) => spec_mime_of(data@) == Some(vstd::utf8::encode_utf8(s@)),
            None => spec_mime_of(data@) is None,
        },
{
    infer::get(data).map(|t| t.mime_type().to_string())
}

/// The format content sniffing finds in a buffer.
pub open spec fn spec_format_from_content(data: Seq<u8>) -> Option<ImageFormat> {
    match spec_mime_of(data) {
        Some(m) => spec_format_from_mime(m),
        None => None,
    }
}

/// Maps a MIME type string to the format it names.
pub fn format_from_mime(m: &str) -> (r: Option<ImageFormat>)
    ensures
        r == spec_format_from_mime(m.spec_bytes()),
{
    let b: &[u8] = m.as_bytes();
    if bytes_eq(b, "image/jpeg".as_bytes()) {
        Some(ImageFormat::Jpeg)
    } else if bytes_eq(b, "image/png".as_bytes()) {
        Some(ImageFormat::Png)
    } else if bytes_eq(b, "image/gif".as_bytes()) {
        Some(ImageFormat::Gif)
    } else if bytes_eq(b, "image/heic".as_bytes()) || bytes_eq(b, "image/heif".as_bytes()) {
        Some(ImageFormat::Heic)
    } else if bytes_eq(b, "image/webp".as_bytes()) {
        Some(ImageFormat::Webp)
    } else if bytes_eq(b, "image/bmp".as_bytes()) {
        Some(ImageFormat::Bmp)
    } else if bytes_eq(b, "image/tiff".as_bytes()) {
        Some(ImageFormat::Tiff)
    } else {
        None
    }
}

impl ImageFormat {
    /// The format a filename extension names, case-insensitively.
    pub fn from_extension(ext: &str) -> (r: Option<ImageFormat>)
        ensures
            r == spec_format_from_ext(ext.spec_bytes()),
    {
        format_from_ext_bytes(ext.as_bytes())
    }

    /// The format the first bytes of a file identify, by content sniffing.
    pub fn from_content(data: &[u8]) -> (r: Option<ImageFormat>)
        ensures
            r == spec_format_from_content(data@),
    {
        match sniff_mime(data) {
            Some(m) => format_from_mime(m.as_str()),
            None => None,
        }
    }

    /// Whether the format needs encoding to become HEIC; an already-HEIC
    /// input does not, though the pipeline still re-encodes every
    /// recognized image (see [`is_convertible_format`]).
    pub fn should_convert(&self) -> (r: bool)
        ensures
            r == (*self != ImageFormat::Heic),
    {
        match self {
            ImageFormat::Heic => false,
            _ => true,
        }
    }
}

/// The extension of a file name: the bytes after the last dot, none when
/// the name has no dot or only a leading one.
pub open spec fn spec_ext_bytes(name: Seq<u8>) -> Option<Seq<u8>> {
    match spec_rfind_byte(name, 46) {
        Some(d) => if d == 0 {
            None
        } else {
            Some(name.subrange(d + 1, name.len() as int))
        },
        None => None,
    }
}

/// The extension of a file name, as a byte slice.
pub fn extension_bytes<'a>(name: &'a str) -> (r: Option<&'a [u8]>)
    ensures
        match r {
            Some(e) => spec_ext_bytes(name.spec_bytes()) == Some(e@),
            None => spec_ext_bytes(name.spec_bytes()) is None,
        },
{
    let b: &[u8] = name.as_bytes();
    match rfind_byte(b, 46) {
        Some(d) => {
            if d == 0 {
                None
            } else {
                let blen: usize = b.len();
                Some(&b[d + 1..blen])
            }
        },
        None => None,
    }
}

/// What a file is taken to be: the sniffed content format when the first
/// bytes identify one, else the format its extension names.
pub open spec fn spec_detect_format(name: Seq<u8>, content: Seq<u8>) -> Option<ImageFormat> {
    if content.len() > 0 && spec_format_from_content(content) is Some {
        spec_format_from_content(content)
    } else {
        match spec_ext_bytes(name) {
            Some(e) => spec_format_from_ext(e),
            None => None,
        }
    }
}

/// Whether the pattern compiles as a regular expression: a function of
/// the pattern alone.
pub uninterp spec fn spec_regex_valid(pattern: Seq<char>) -> bool;

/// Whether the pattern matches somewhere in the text: a function of
/// pattern and text alone.
pub uninterp spec fn spec_regex_matches(pattern: Seq<char>, text: Seq<char>) -> bool;

/// Relies on regex::Regex::new: whether a pattern compiles depends on the
/// pattern alone.
#[verifier::external_body]
fn regex_is_valid(pattern: &str) -> (r: bool)
    ensures
        r == spec_regex_valid(pattern@),
{
    regex::Regex::new(pattern).is_ok()
}

/// Relies on regex::Regex::is_match (after regex::Regex::new on a pattern
/// known to compile): whether a pattern matches a text depends on pattern
/// and text alone.
#[verifier::external_body]
fn regex_matches(pattern: &str, text: &str) -> (r: bool)
    requires
        spec_regex_valid(pattern@),
    ensures
        r == spec_regex_matches(pattern@, text@),
{
    match regex::Regex::new(pattern) {
        Ok(re) => re.is_match(text),
        Err(_) => false,
    }
}

/// The filename-pattern stage of detection: a set of compiled regular
/// expressions matched against file names before any file is opened.
pub struct FileDetector {
    patterns: Vec<String>,
}

impl FileDetector {
    /// Every held pattern compiles.
    pub closed spec fn wf(&self) -> bool {
        forall|i: int| 0 <= i < self.patterns@.len() ==> spec_regex_valid(
            #[trigger] self.patterns@[i]@,
        )
    }

    /// The held patterns.
    pub closed spec fn spec_patterns(&self) -> Seq<Seq<char>> {
        self.patterns@.map_values(|p: String| p@)
    }

    /// A detector over the given patterns; the first pattern that does
    /// not compile is returned as the error.
    pub fn new(patterns: Vec<String>) -> (r: Result<FileDetector, String>)
        ensures
            match r {
                Ok(d) => d.wf() && d.spec_patterns() == patterns@.map_values(|p: String| p@),
                Err(e) => exists|i: int|
                    0 <= i < patterns@.len() && !spec_regex_valid(#[trigger] patterns@[i]@) && e@
                        == patterns@[i]@ && forall|j: int|
                        0 <= j < i ==> spec_regex_valid(#[trigger] patterns@[j]@),
            },
    {
        let n: usize = patterns.len();
        let mut i: usize = 0;
        while i < n
            invariant
                n == patterns@.len(),
                i <= n,
                forall|j: int| 0 <= j < i ==> spec_regex_valid(#[trigger] patterns@[j]@),
            decreases n - i,
        {
            if !regex_is_valid(patterns[i].as_str()) {
                return Err(patterns[i].clone());
            }
            i = i + 1;
        }
        let d = FileDetector { patterns };
        proof {
            assert(d.spec_patterns() =~= d.patterns@.map_values(|p: String| p@));
        }
        Ok(d)
    }

    /// Whether any held pattern matches the file name.
    pub open spec fn spec_name_matches(&self, name: Seq<char>) -> bool {
        exists|i: int| 0 <= i < self.spec_patterns().len() && spec_regex_matches(
            #[trigger] self.spec_patterns()[i],
            name,
        )
    }

    /// Whether a host file is an image: its name matches a pattern, or a
    /// non-empty content prefix sniffs as an image format.
    pub fn is_image_file(&self, filename: &str, content_prefix: &[u8]) -> (r: bool)
        requires
            self.wf(),
        ensures
            r == (self.spec_name_matches(filename@) || (content_prefix@.len() > 0
                && spec_format_from_content(content_prefix@) is Some)),
    {
        let n: usize = self.patterns.len();
        let mut i: usize = 0;
        while i < n
            invariant
                self.wf(),
                n == self.patterns@.len(),
                i <= n,
                forall|j: int| 0 <= j < i ==> !spec_regex_matches(
                    #[trigger] self.spec_patterns()[j],
                    filename@,
                ),
            decreases n - i,
        {
            proof {
                assert(self.spec_patterns()[i as int] == self.patterns@[i as int]@);
            }
            if regex_matches(self.patterns[i].as_str(), filename) {
                proof {
                    assert(spec_regex_matches(self.spec_patterns()[i as int], filename@));
                }
                return true;
            }
            i = i + 1;
        }
        if content_prefix.len() > 0 {
            match ImageFormat::from_content(content_prefix) {
                Some(_) => true,
                None => false,
            }
        } else {
            false
        }
    }

    /// The format of a host file: content sniffing first, extension as
    /// the fallback.
    pub fn detect_format(&self, filename: &str, content_prefix: &[u8]) -> (r: Option<ImageFormat>)
        ensures
            r == spec_detect_format(filename.spec_bytes(), content_prefix@),
    {
        if content_prefix.len() > 0 {
            if let Some(f) = ImageFormat::from_content(content_prefix) {
                return Some(f);
            }
        }
        match extension_bytes(filename) {
            Some(ext) => format_from_ext_bytes(ext),
            None => None,
        }
    }
}

/// Maps extension bytes to the format they name, case-insensitively.
fn format_from_ext_bytes(ext: &[u8]) -> (r: Option<ImageFormat>)
    ensures
        r == spec_format_from_ext(ext@),
{
    if fold_eq_str(ext, "jpg") || fold_eq_str(ext, "jpeg") {
        Some(ImageFormat::Jpeg)
    } else if fold_eq_str(ext, "png") {
        Some(ImageFormat::Png)
    } else if fold_eq_str(ext, "gif") {
        Some(ImageFormat::Gif)
    } else if fold_eq_str(ext, "heic") || fold_eq_str(ext, "heif") {
        Some(ImageFormat::Heic)
    } else if fold_eq_str(ext, "webp") {
        Some(ImageFormat::Webp)
    } else if fold_eq_str(ext, "bmp") {
        Some(ImageFormat::Bmp)
    } else if fold_eq_str(ext, "tif") || fold_eq_str(ext, "tiff") {
        Some(ImageFormat::Tiff)
    } else {
        None
    }
}

/// Whether a host file is a convertible image: any recognized format,
/// HEIC included, is re-encoded with the current parameters.
pub fn is_convertible_format(filename: &str, content_prefix: &[u8]) -> (r: bool)
    ensures
        r == (spec_detect_format(filename.spec_bytes(), content_prefix@) is Some),
{
    if content_prefix.len() > 0 {
        if let Some(_) = ImageFormat::from_content(content_prefix) {
            return true;
        }
    }
    match extension_bytes(filename) {
        Some(ext) => format_from_ext_bytes(ext).is_some(),
        None => false,
    }
}

} // verus!
