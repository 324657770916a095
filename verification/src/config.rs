//! Runtime configuration: the mount point, the source roots surfaced under
//! it, filename patterns for the format detector, encoder parameters, cache
//! and mount-protocol settings. Host paths are carried as UTF-8 strings.

use vstd::prelude::*;
use vstd::string::StringExecFns;
use vstd::utf8::encode_utf8;
use crate::ascii::{find_byte, parse_u32, spec_find_byte, spec_parse_u32, spec_trim_ascii,
    trim_ascii};

verus! {

/// A host directory surfaced at `/mount_name/...` inside the virtual
/// filesystem. The set of roots is fixed at mount time.
#[derive(Debug, Clone)]
pub struct SourcePath {
    pub path: String,
    pub recursive: bool,
    /// Name appearing at the top level of the mount (e.g. "pictures").
    pub mount_name: String,
}

/// Encoder parameters. Carried by every conversion and every cache
/// operation; artifacts produced with different settings are distinct.
#[derive(Debug, Clone)]
pub struct HeicSettings {
    pub quality: u8,
    pub speed: u8,
    pub chroma: u16,
    /// Maximum pixel resolution as the string "width,height"; images larger
    /// than this are scaled down. Absent means no limit.
    pub max_resolution: Option<String>,
}

/// The pair `(width, height)` parsed from a "w,h" string: both sides of the
/// first comma, trimmed of ASCII whitespace, read as decimal `u32`s.
pub open spec fn spec_parse_resolution(s: Seq<u8>) -> Option<(u32, u32)> {
    match spec_find_byte(s, 44) {
        Some(c) => {
            let w = spec_parse_u32(spec_trim_ascii(s.subrange(0, c)));
            let h = spec_parse_u32(spec_trim_ascii(s.subrange(c + 1, s.len() as int)));
            if w is Some && h is Some {
                Some((w->Some_0, h->Some_0))
            } else {
                None
            }
        },
        None => None,
    }
}

/// The resolution limit of `settings`, if one is set and parses.
pub open spec fn spec_max_resolution(settings: HeicSettings) -> Option<(u32, u32)> {
    match settings.max_resolution {
        Some(s) => spec_parse_resolution(encode_utf8(s@)),
        None => None,
    }
}

impl HeicSettings {
    pub fn new(quality: u8, speed: u8, chroma: u16, max_resolution: Option<String>) -> (r:
        HeicSettings)
        ensures
            r.quality == quality,
            r.speed == speed,
            r.chroma == chroma,
            r.max_resolution == max_resolution,
    {
        HeicSettings { quality, speed, chroma, max_resolution }
    }

    /// An equal copy of these settings.
    pub fn duplicate(&self) -> (r: HeicSettings)
        ensures
            r == *self,
    {
        let max_resolution = match &self.max_resolution {
            Some(s) => Some(s.clone()),
            None => None,
        };
        HeicSettings { quality: self.quality, speed: self.speed, chroma: self.chroma, max_resolution }
    }

    /// The configured resolution limit as a `(width, height)` pair, or
    /// nothing when no limit is set or the string does not parse.
    pub fn get_max_resolution(&self) -> (r: Option<(u32, u32)>)
        ensures
            r == spec_max_resolution(*self),
    {
        match &self.max_resolution {
            Some(res) => {
                let bytes: &[u8] = res.as_str().as_bytes();
                match find_byte(bytes, 44) {
                    Some(c) => {
                        proof {
                            let s = bytes@;
                            assert(spec_find_byte(s, 44) == Some(c as int)) by {
                                assert(0 <= c < s.len() && s[c as int] == 44 && forall|j: int|
                                    0 <= j < c ==> s[j] != 44);
                                let w = choose|i: int| 0 <= i < s.len() && s[i] == 44
                                    && forall|j: int| 0 <= j < i ==> s[j] != 44;
                                assert(!(w < c) && !(c < w));
                            }
                        }
                        let blen: usize = bytes.len();
                        let left: &[u8] = trim_ascii(&bytes[0..c]);
                        let right: &[u8] = trim_ascii(&bytes[c + 1..blen]);
                        let w = parse_u32(left);
                        let h = parse_u32(right);
                        match (w, h) {
                            (Some(wv), Some(hv)) => Some((wv, hv)),
                            _ => None,
                        }
                    },
                    None => {
                        proof {
                            assert(spec_find_byte(bytes@, 44) is None);
                        }
                        None
                    },
                }
            },
            None => None,
        }
    }

    /// Whether an image of the given dimensions exceeds the configured
    /// limit and so must be scaled down before encoding.
    pub fn should_resize(&self, width: u32, height: u32) -> (r: bool)
        ensures
            r == match spec_max_resolution(*self) {
                Some((mw, mh)) => width > mw || height > mh,
                None => false,
            },
    {
        if let Some((max_width, max_height)) = self.get_max_resolution() {
            width > max_width || height > max_height
        } else {
            false
        }
    }
}

/// Disk budget and location of the artifact cache, and whether entries are
/// encrypted with a key derived from the source path.
#[derive(Debug, Clone)]
pub struct CacheSettings {
    pub max_size_mb: u64,
    pub cache_dir: Option<String>,
    pub enable_encryption: bool,
}

/// Parameters of the mount protocol: how long the kernel may cache
/// attributes and entries, and how many following siblings each read
/// prefetches.
#[derive(Debug, Clone)]
pub struct FuseSettings {
    /// Entry and attribute TTL handed to the kernel, in seconds.
    pub cache_timeout: u64,
    /// Number of convertible siblings submitted for conversion after each
    /// read; zero disables the hook.
    pub prefetch_count: usize,
}

impl core::default::Default for FuseSettings {
    fn default() -> (r: FuseSettings)
        ensures
            r.cache_timeout == 60,
            r.prefetch_count == 0,
    {
        FuseSettings { cache_timeout: 60, prefetch_count: 0 }
    }
}

#[derive(Debug, Clone)]
pub struct LoggingSettings {
    pub level: String,
}

/// The whole runtime configuration.
#[derive(Debug, Clone)]
pub struct Config {
    pub mount_point: String,
    pub source_paths: Vec<SourcePath>,
    pub filename_patterns: Vec<String>,
    pub heic_settings: HeicSettings,
    pub cache: CacheSettings,
    pub fuse: FuseSettings,
    pub logging: LoggingSettings,
}

impl Config {
    /// The default configuration for a user with the given home
    /// directory: the user's pictures surfaced recursively and downloads
    /// non-recursively, the standard filename patterns, mid-range encoder
    /// parameters, a one-gibibyte encrypted cache, and warning-level
    /// logging.
    pub fn default_config(home: &str) -> (r: Config)
        ensures
            r.mount_point@ == "/tmp/fuse-img2heic"@,
            r.source_paths@.len() == 2,
            r.source_paths@[0].path@ == home@ + "/Pictures"@,
            r.source_paths@[0].recursive,
            r.source_paths@[0].mount_name@ == "pictures"@,
            r.source_paths@[1].path@ == home@ + "/Downloads"@,
            !r.source_paths@[1].recursive,
            r.source_paths@[1].mount_name@ == "downloads"@,
            r.filename_patterns@.len() == 1,
            r.filename_patterns@[0]@ == ".*\\.(jpg|jpeg|png|gif|heic)$"@,
            r.heic_settings.quality == 50,
            r.heic_settings.speed == 4,
            r.heic_settings.chroma == 420,
            r.heic_settings.max_resolution is None,
            r.cache.max_size_mb == 1024,
            r.cache.cache_dir is None,
            r.cache.enable_encryption,
            r.fuse.cache_timeout == 60,
            r.fuse.prefetch_count == 0,
            r.logging.level@ == "warn"@,
    {
        let mut source_paths: Vec<SourcePath> = Vec::new();
        source_paths.push(
            SourcePath {
                path: home.to_owned().concat("/Pictures"),
                recursive: true,
                mount_name: "pictures".to_owned(),
            },
        );
        source_paths.push(
            SourcePath {
                path: home.to_owned().concat("/Downloads"),
                recursive: false,
                mount_name: "downloads".to_owned(),
            },
        );
        let mut filename_patterns: Vec<String> = Vec::new();
        filename_patterns.push(".*\\.(jpg|jpeg|png|gif|heic)$".to_owned());
        Config {
            mount_point: "/tmp/fuse-img2heic".to_owned(),
            source_paths,
            filename_patterns,
            heic_settings: HeicSettings {
                quality: 50,
                speed: 4,
                chroma: 420,
                max_resolution: None,
            },
            cache: CacheSettings { max_size_mb: 1024, cache_dir: None, enable_encryption: true },
            fuse: FuseSettings { cache_timeout: 60, prefetch_count: 0 },
            logging: LoggingSettings { level: "warn".to_owned() },
        }
    }
}

} // verus!
