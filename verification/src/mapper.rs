//! The name mapper: the bijection between virtual paths under the mount
//! and real host paths. The first component of a virtual path names a
//! configured source root; the rest is a subpath under that root's host
//! directory. A virtual file ending in `.heic` may be backed by a source
//! in any recognized format: candidate host paths are tried in a fixed
//! extension order, `heic` first, so an existing HEIC source is re-encoded
//! with the current parameters rather than passed through.

use vstd::prelude::*;
use vstd::string::{StringExecFns, StrSliceExecFns};
use crate::config::SourcePath;

verus! {

/// Whether two strings hold the same characters.
pub fn str_eq(a: &str, b: &str) -> (r: bool)
    ensures
        r == (a@ == b@),
{
    let na: usize = a.unicode_len();
    let nb: usize = b.unicode_len();
    if na != nb {
        assert(a@ != b@) by {
            assert(a@.len() != b@.len());
        }
        return false;
    }
    let mut i: usize = 0;
    while i < na
        invariant
            na == a@.len(),
            na == b@.len(),
            i <= na,
            forall|j: int| 0 <= j < i ==> a@[j] == b@[j],
        decreases na - i,
    {
        if a.get_char(i) != b.get_char(i) {
            return false;
        }
        i = i + 1;
    }
    proof {
        assert(a@ =~= b@);
    }
    true
}

/// A parent path and a child name joined with a slash.
pub open spec fn spec_join2(parent: Seq<char>, name: Seq<char>) -> Seq<char> {
    parent + seq!['/'] + name
}

/// Joins a parent path and a child name with a slash.
pub fn join_path(parent: &str, name: &str) -> (r: String)
    ensures
        r@ == spec_join2(parent@, name@),
{
    let mut s = parent.to_owned();
    s.append("/");
    s.append(name);
    proof {
        reveal_strlit("/");
        assert(s@ =~= spec_join2(parent@, name@));
    }
    s
}

/// The virtual path of a directory entry: the name itself at the root,
/// otherwise the parent path, a slash, and the name.
pub open spec fn spec_child_vpath(parent: Seq<char>, name: Seq<char>) -> Seq<char> {
    if parent == seq!['/'] {
        name
    } else {
        spec_join2(parent, name)
    }
}

/// Composes the virtual path of a child of `parent` named `name`.
pub fn child_virtual_path(parent: &str, name: &str) -> (r: String)
    ensures
        r@ == spec_child_vpath(parent@, name@),
{
    proof {
        reveal_strlit("/");
    }
    if str_eq(parent, "/") {
        proof {
            assert(parent@ =~= seq!['/']);
        }
        name.to_owned()
    } else {
        proof {
            assert(parent@ != seq!['/']) by {
                assert("/"@ =~= seq!['/']);
            }
        }
        join_path(parent, name)
    }
}

/// The index of the last occurrence of a character.
pub open spec fn spec_rfind_char(s: Seq<char>, c: char) -> Option<int> {
    if exists|i: int| 0 <= i < s.len() && s[i] == c {
        Some(
            choose|i: int|
                0 <= i < s.len() && s[i] == c && forall|j: int| i < j < s.len() ==> s[j] != c,
        )
    } else {
        None
    }
}

/// Finds the last occurrence of a character.
pub fn rfind_char(s: &str, c: char) -> (r: Option<usize>)
    ensures
        match r {
            Some(i) => 0 <= i < s@.len() && s@[i as int] == c && (forall|j: int|
                i < j < s@.len() ==> s@[j] != c) && spec_rfind_char(s@, c) == Some(i as int),
            None => (forall|j: int| 0 <= j < s@.len() ==> s@[j] != c) && spec_rfind_char(
                s@,
                c,
            ) is None,
        },
{
    let n: usize = s.unicode_len();
    let mut i: usize = n;
    while i > 0
        invariant
            n == s@.len(),
            i <= n,
            forall|j: int| i <= j < n ==> s@[j] != c,
        decreases i,
    {
        i = i - 1;
        if s.get_char(i) == c {
            proof {
                let w = choose|w: int|
                    0 <= w < s@.len() && s@[w] == c && forall|j: int| w < j < s@.len() ==> s@[j]
                        != c;
                assert(!(w < i as int) && !((i as int) < w));
            }
            return Some(i);
        }
    }
    proof {
        if exists|j: int| 0 <= j < s@.len() && s@[j] == c {
            let w = choose|w: int| 0 <= w < s@.len() && s@[w] == c;
        }
    }
    None
}

/// A name with its extension replaced: everything after the last dot
/// becomes `ext`; a name without a dot, or with only a leading one, gets
/// a dot and `ext` appended.
pub open spec fn spec_replace_ext(name: Seq<char>, ext: Seq<char>) -> Seq<char> {
    match spec_rfind_char(name, '.') {
        Some(d) => if d > 0 {
            name.take(d) + seq!['.'] + ext
        } else {
            name + seq!['.'] + ext
        },
        None => name + seq!['.'] + ext,
    }
}

/// Replaces a name's extension.
pub fn replace_extension(name: &str, ext: &str) -> (r: String)
    ensures
        r@ == spec_replace_ext(name@, ext@),
{
    proof {
        reveal_strlit(".");
    }
    let stem: &str = match rfind_char(name, '.') {
        Some(d) => if d > 0 {
            name.substring_char(0, d)
        } else {
            name
        },
        None => name,
    };
    let mut s = stem.to_owned();
    s.append(".");
    s.append(ext);
    proof {
        assert(s@ =~= spec_replace_ext(name@, ext@));
    }
    s
}

/// Whether a name's extension is exactly `heic`.
pub open spec fn spec_has_heic_ext(name: Seq<char>) -> bool {
    match spec_rfind_char(name, '.') {
        Some(d) => name.subrange(d + 1, name.len() as int) == seq!['h', 'e', 'i', 'c'],
        None => false,
    }
}

/// Whether a name ends in `.heic`, case-sensitively.
pub fn has_heic_extension(name: &str) -> (r: bool)
    ensures
        r == spec_has_heic_ext(name@),
{
    proof {
        reveal_strlit("heic");
    }
    match rfind_char(name, '.') {
        Some(d) => {
            let n: usize = name.unicode_len();
            let ext: &str = name.substring_char(d + 1, n);
            let r = str_eq(ext, "heic");
            proof {
                assert("heic"@ =~= seq!['h', 'e', 'i', 'c']);
            }
            r
        },
        None => false,
    }
}

/// The index of the first source root with the given mount name.
pub open spec fn spec_find_root(roots: Seq<SourcePath>, mount_name: Seq<char>) -> Option<int> {
    if exists|i: int| 0 <= i < roots.len() && (#[trigger] roots[i]).mount_name@ == mount_name {
        Some(
            choose|i: int|
                0 <= i < roots.len() && (#[trigger] roots[i]).mount_name@ == mount_name
                    && forall|j: int| 0 <= j < i ==> roots[j].mount_name@ != mount_name,
        )
    } else {
        None
    }
}

/// Finds the source root surfaced under the given mount name.
pub fn find_root(roots: &Vec<SourcePath>, mount_name: &str) -> (r: Option<usize>)
    ensures
        match r {
            Some(i) => spec_find_root(roots@, mount_name@) == Some(i as int),
            None => spec_find_root(roots@, mount_name@) is None,
        },
{
    let n: usize = roots.len();
    let mut i: usize = 0;
    while i < n
        invariant
            n == roots@.len(),
            i <= n,
            forall|j: int| 0 <= j < i ==> (#[trigger] roots@[j]).mount_name@ != mount_name@,
        decreases n - i,
    {
        if str_eq(roots[i].mount_name.as_str(), mount_name) {
            proof {
                let w = choose|w: int|
                    0 <= w < roots@.len() && (#[trigger] roots@[w]).mount_name@ == mount_name@
                        && forall|j: int| 0 <= j < w ==> roots@[j].mount_name@ != mount_name@;
                assert(!(w < i as int) && !((i as int) < w));
            }
            return Some(i);
        }
        i = i + 1;
    }
    proof {
        if exists|w: int| 0 <= w < roots@.len() && (#[trigger] roots@[w]).mount_name@
            == mount_name@ {
            let w = choose|w: int|
                0 <= w < roots@.len() && (#[trigger] roots@[w]).mount_name@ == mount_name@;
        }
    }
    None
}

/// A base path extended by each component in turn, slash-separated.
pub open spec fn spec_join_all(base: Seq<char>, comps: Seq<Seq<char>>) -> Seq<char>
    decreases comps.len(),
{
    if comps.len() == 0 {
        base
    } else {
        spec_join_all(spec_join2(base, comps.first()), comps.drop_first())
    }
}

/// The host path backing a subpath under a root's directory.
pub fn host_base(root_path: &str, subpath: &Vec<String>) -> (r: String)
    ensures
        r@ == spec_join_all(root_path@, subpath@.map_values(|c: String| c@)),
{
    let mut s = root_path.to_owned();
    let n: usize = subpath.len();
    let mut i: usize = 0;
    proof {
        reveal_strlit("/");
        assert(subpath@.map_values(|c: String| c@).skip(0) =~= subpath@.map_values(
            |c: String| c@,
        ));
    }
    while i < n
        invariant
            n == subpath@.len(),
            i <= n,
            "/"@ == seq!['/'],
            spec_join_all(root_path@, subpath@.map_values(|c: String| c@)) == spec_join_all(
                s@,
                subpath@.map_values(|c: String| c@).skip(i as int),
            ),
        decreases n - i,
    {
        let ghost comps = subpath@.map_values(|c: String| c@);
        let ghost pre = s@;
        s.append("/");
        s.append(subpath[i].as_str());
        proof {
            assert(s@ =~= spec_join2(pre, comps[i as int]));
            assert(comps.skip(i as int).first() == comps[i as int]);
            assert(comps.skip(i as int).drop_first() =~= comps.skip(i + 1));
        }
        i = i + 1;
    }
    proof {
        assert(subpath@.map_values(|c: String| c@).skip(n as int) =~= Seq::<Seq<char>>::empty());
    }
    s
}

/// The candidate source extensions tried, in order, when a virtual name
/// ends in `.heic`: `heic` first, so an existing HEIC source wins and is
/// re-encoded, then the raster formats.
pub open spec fn spec_candidate_exts() -> Seq<Seq<char>> {
    seq![
        "heic"@,
        "jpg"@,
        "jpeg"@,
        "png"@,
        "gif"@,
        "webp"@,
        "bmp"@,
        "tiff"@,
    ]
}

/// The candidate host paths for a base path whose virtual name ends in
/// `.heic`: the base with its extension replaced by each candidate
/// extension, in the fixed order.
pub fn resolve_candidates(base: &str) -> (r: Vec<String>)
    ensures
        r@.len() == 8,
        forall|i: int|
            0 <= i < 8 ==> (#[trigger] r@[i])@ == spec_replace_ext(
                base@,
                spec_candidate_exts()[i],
            ),
{
    let mut r: Vec<String> = Vec::new();
    r.push(replace_extension(base, "heic"));
    r.push(replace_extension(base, "jpg"));
    r.push(replace_extension(base, "jpeg"));
    r.push(replace_extension(base, "png"));
    r.push(replace_extension(base, "gif"));
    r.push(replace_extension(base, "webp"));
    r.push(replace_extension(base, "bmp"));
    r.push(replace_extension(base, "tiff"));
    r
}

/// The first candidate that exists on the host, by the probe results the
/// caller gathered.
pub fn first_existing(candidates: &Vec<String>, exists_flags: &Vec<bool>) -> (r: Option<usize>)
    requires
        candidates@.len() == exists_flags@.len(),
    ensures
        match r {
            Some(i) => (i as int) < exists_flags@.len() && exists_flags@[i as int] && forall|j: int|
                0 <= j < i ==> !exists_flags@[j],
            None => forall|j: int| 0 <= j < exists_flags@.len() ==> !exists_flags@[j],
        },
{
    let n: usize = exists_flags.len();
    let mut i: usize = 0;
    while i < n
        invariant
            n == exists_flags@.len(),
            i <= n,
            forall|j: int| 0 <= j < i ==> !exists_flags@[j],
        decreases n - i,
    {
        if exists_flags[i] {
            return Some(i);
        }
        i = i + 1;
    }
    None
}

/// One entry of a host directory, as the caller read it: its name,
/// whether it is a directory, and whether the format detector reported a
/// regular file as an image.
pub struct HostEntry {
    pub name: String,
    pub is_dir: bool,
    pub is_image: bool,
}

/// One entry of the synthesized virtual listing.
pub struct ListEntry {
    pub name: String,
    pub is_dir: bool,
}

/// The visible name of an entry: directories keep their names; image
/// files are displayed with extension `heic`.
pub open spec fn spec_visible_name(name: Seq<char>, is_dir: bool) -> Seq<char> {
    if is_dir {
        name
    } else {
        spec_replace_ext(name, seq!['h', 'e', 'i', 'c'])
    }
}

/// Whether a host entry is eligible to appear: directories always,
/// regular files only when detected as images.
pub open spec fn spec_eligible(e: HostEntry) -> bool {
    e.is_dir || e.is_image
}

/// Whether a host entry is excluded: its full host path is the mount
/// point itself, which would otherwise list recursively.
pub open spec fn spec_entry_excluded(dir: Seq<char>, name: Seq<char>, mount_point: Seq<char>) -> bool {
    spec_join2(dir, name) == mount_point
}

/// Listing entry `o` renders some host entry below `bound`: an eligible,
/// non-excluded one, under its visible name.
pub open spec fn listed_from(
    out: Seq<ListEntry>,
    entries: Seq<HostEntry>,
    dir: Seq<char>,
    mount_point: Seq<char>,
    o: int,
    bound: int,
) -> bool {
    exists|i: int|
        0 <= i < bound && spec_eligible(#[trigger] entries[i]) && !spec_entry_excluded(
            dir,
            entries[i].name@,
            mount_point,
        ) && out[o].name@ == spec_visible_name(entries[i].name@, entries[i].is_dir)
            && out[o].is_dir == entries[i].is_dir
}

/// The virtual view of one host directory: directories pass through,
/// image files appear with their extension rewritten to `heic`,
/// non-image files are absent, the mount point itself is excluded, and
/// names that collide after the rewrite are listed once (first
/// occurrence wins).
pub fn list_host_directory(host_dir: &str, mount_point: &str, entries: &Vec<HostEntry>) -> (r:
    Vec<ListEntry>)
    ensures
        forall|o: int|
            0 <= o < r@.len() ==> #[trigger] listed_from(
                r@,
                entries@,
                host_dir@,
                mount_point@,
                o,
                entries@.len() as int,
            ),
        forall|i: int|
            0 <= i < entries@.len() && spec_eligible(#[trigger] entries@[i])
                && !spec_entry_excluded(host_dir@, entries@[i].name@, mount_point@) ==> exists|
                o: int,
            |
                0 <= o < r@.len() && (#[trigger] r@[o]).name@ == spec_visible_name(
                    entries@[i].name@,
                    entries@[i].is_dir,
                ),
        forall|o1: int, o2: int|
            0 <= o1 < o2 < r@.len() ==> (#[trigger] r@[o1]).name@ != (#[trigger] r@[o2]).name@,
{
    proof {
        reveal_strlit("heic");
        assert("heic"@ =~= seq!['h', 'e', 'i', 'c']);
    }
    let n: usize = entries.len();
    let mut r: Vec<ListEntry> = Vec::new();
    let mut i: usize = 0;
    while i < n
        invariant
            n == entries@.len(),
            i <= n,
            "heic"@ == seq!['h', 'e', 'i', 'c'],
            forall|o: int|
                0 <= o < r@.len() ==> #[trigger] listed_from(
                    r@,
                    entries@,
                    host_dir@,
                    mount_point@,
                    o,
                    i as int,
                ),
            forall|j: int|
                0 <= j < i && spec_eligible(#[trigger] entries@[j]) && !spec_entry_excluded(
                    host_dir@,
                    entries@[j].name@,
                    mount_point@,
                ) ==> exists|o: int|
                    0 <= o < r@.len() && (#[trigger] r@[o]).name@ == spec_visible_name(
                        entries@[j].name@,
                        entries@[j].is_dir,
                    ),
            forall|o1: int, o2: int|
                0 <= o1 < o2 < r@.len() ==> (#[trigger] r@[o1]).name@ != (#[trigger] r@[o2]).name@,
        decreases n - i,
    {
        let e = &entries[i];
        if e.is_dir || e.is_image {
            let full = join_path(host_dir, e.name.as_str());
            if !str_eq(full.as_str(), mount_point) {
                let visible: String = if e.is_dir {
                    e.name.clone()
                } else {
                    replace_extension(e.name.as_str(), "heic")
                };
                proof {
                    assert(visible@ == spec_visible_name(
                        entries@[i as int].name@,
                        entries@[i as int].is_dir,
                    ));
                }
                let mut dup = false;
                let m: usize = r.len();
                let mut o: usize = 0;
                while o < m
                    invariant
                        m == r@.len(),
                        o <= m,
                        dup ==> exists|w: int|
                            0 <= w < r@.len() && (#[trigger] r@[w]).name@ == visible@,
                        !dup ==> forall|w: int| 0 <= w < o ==> (#[trigger] r@[w]).name@
                            != visible@,
                    decreases m - o,
                {
                    if str_eq(r[o].name.as_str(), visible.as_str()) {
                        dup = true;
                        proof {
                            assert(r@[o as int].name@ == visible@);
                        }
                    }
                    o = o + 1;
                }
                if !dup {
                    let ghost prev = r@;
                    let ghost vis = visible@;
                    proof {
                        assert(forall|w: int|
                            0 <= w < prev.len() ==> (#[trigger] prev[w]).name@ != vis);
                    }
                    r.push(ListEntry { name: visible, is_dir: e.is_dir });
                    proof {
                        assert forall|o2: int| 0 <= o2 < r@.len() implies #[trigger] listed_from(
                            r@,
                            entries@,
                            host_dir@,
                            mount_point@,
                            o2,
                            i + 1,
                        ) by {
                            if o2 < prev.len() {
                                assert(listed_from(
                                    prev,
                                    entries@,
                                    host_dir@,
                                    mount_point@,
                                    o2,
                                    i as int,
                                ));
                                let w = choose|w: int|
                                    0 <= w < i && spec_eligible(#[trigger] entries@[w])
                                        && !spec_entry_excluded(
                                        host_dir@,
                                        entries@[w].name@,
                                        mount_point@,
                                    ) && prev[o2].name@ == spec_visible_name(
                                        entries@[w].name@,
                                        entries@[w].is_dir,
                                    ) && prev[o2].is_dir == entries@[w].is_dir;
                                assert(r@[o2] == prev[o2]);
                            } else {
                                assert(r@[o2].name@ == spec_visible_name(
                                    entries@[i as int].name@,
                                    entries@[i as int].is_dir,
                                ));
                            }
                        }
                        assert(r@[r@.len() - 1].name@ == spec_visible_name(
                            entries@[i as int].name@,
                            entries@[i as int].is_dir,
                        ));
                        assert forall|j: int|
                            0 <= j < i + 1 && spec_eligible(#[trigger] entries@[j])
                                && !spec_entry_excluded(
                                host_dir@,
                                entries@[j].name@,
                                mount_point@,
                            ) implies exists|o2: int|
                            0 <= o2 < r@.len() && (#[trigger] r@[o2]).name@ == spec_visible_name(
                                entries@[j].name@,
                                entries@[j].is_dir,
                            ) by {
                            if j == i as int {
                                assert(r@[r@.len() - 1].name@ == spec_visible_name(
                                    entries@[j].name@,
                                    entries@[j].is_dir,
                                ));
                            } else {
                                let o3 = choose|o3: int|
                                    0 <= o3 < prev.len() && (#[trigger] prev[o3]).name@
                                        == spec_visible_name(
                                        entries@[j].name@,
                                        entries@[j].is_dir,
                                    );
                                assert(r@[o3] == prev[o3]);
                            }
                        }
                        assert forall|o1: int, o2: int|
                            0 <= o1 < o2 < r@.len() implies (#[trigger] r@[o1]).name@ != (
                        #[trigger] r@[o2]).name@ by {
                            if o2 == r@.len() - 1 {
                                assert(r@[o1] == prev[o1]);
                                assert(prev[o1].name@ != vis);
                                assert(r@[o2].name@ == vis);
                            } else {
                                assert(r@[o1] == prev[o1] && r@[o2] == prev[o2]);
                            }
                        }
                    }
                } else {
                    proof {
                        assert forall|o2: int| 0 <= o2 < r@.len() implies #[trigger] listed_from(
                            r@,
                            entries@,
                            host_dir@,
                            mount_point@,
                            o2,
                            i + 1,
                        ) by {
                            assert(listed_from(
                                r@,
                                entries@,
                                host_dir@,
                                mount_point@,
                                o2,
                                i as int,
                            ));
                            let w = choose|w: int|
                                0 <= w < i && spec_eligible(#[trigger] entries@[w])
                                    && !spec_entry_excluded(
                                    host_dir@,
                                    entries@[w].name@,
                                    mount_point@,
                                ) && r@[o2].name@ == spec_visible_name(
                                    entries@[w].name@,
                                    entries@[w].is_dir,
                                ) && r@[o2].is_dir == entries@[w].is_dir;
                        }
                        assert forall|j: int|
                            0 <= j < i + 1 && spec_eligible(#[trigger] entries@[j])
                                && !spec_entry_excluded(
                                host_dir@,
                                entries@[j].name@,
                                mount_point@,
                            ) implies exists|o2: int|
                            0 <= o2 < r@.len() && (#[trigger] r@[o2]).name@ == spec_visible_name(
                                entries@[j].name@,
                                entries@[j].is_dir,
                            ) by {
                            if j == i as int {
                                let w = choose|w: int|
                                    0 <= w < r@.len() && (#[trigger] r@[w]).name@ == visible@;
                            }
                        }
                    }
                }
            } else {
                proof {
                    assert(spec_entry_excluded(host_dir@, entries@[i as int].name@, mount_point@));
                    assert forall|o2: int| 0 <= o2 < r@.len() implies #[trigger] listed_from(
                        r@,
                        entries@,
                        host_dir@,
                        mount_point@,
                        o2,
                        i + 1,
                    ) by {
                        assert(listed_from(r@, entries@, host_dir@, mount_point@, o2, i as int));
                        let w = choose|w: int|
                            0 <= w < i && spec_eligible(#[trigger] entries@[w])
                                && !spec_entry_excluded(
                                host_dir@,
                                entries@[w].name@,
                                mount_point@,
                            ) && r@[o2].name@ == spec_visible_name(
                                entries@[w].name@,
                                entries@[w].is_dir,
                            ) && r@[o2].is_dir == entries@[w].is_dir;
                    }
                }
            }
        } else {
            proof {
                assert(!spec_eligible(entries@[i as int]));
                assert forall|o2: int| 0 <= o2 < r@.len() implies #[trigger] listed_from(
                    r@,
                    entries@,
                    host_dir@,
                    mount_point@,
                    o2,
                    i + 1,
                ) by {
                    assert(listed_from(r@, entries@, host_dir@, mount_point@, o2, i as int));
                    let w = choose|w: int|
                        0 <= w < i && spec_eligible(#[trigger] entries@[w]) && !spec_entry_excluded(
                            host_dir@,
                            entries@[w].name@,
                            mount_point@,
                        ) && r@[o2].name@ == spec_visible_name(
                            entries@[w].name@,
                            entries@[w].is_dir,
                        ) && r@[o2].is_dir == entries@[w].is_dir;
                }
            }
        }
        i = i + 1;
    }
    r
}

/// Whether `prefix` is a proper path prefix of `s`: `s` starts with it
/// and a slash follows.
pub open spec fn spec_path_prefix(prefix: Seq<char>, s: Seq<char>) -> bool {
    prefix.len() < s.len() && s.take(prefix.len() as int) == prefix && s[prefix.len() as int]
        == '/'
}

/// Tests whether `prefix` is a proper path prefix of `s`.
pub fn path_prefix(prefix: &str, s: &str) -> (r: bool)
    ensures
        r == spec_path_prefix(prefix@, s@),
{
    let np: usize = prefix.unicode_len();
    let ns: usize = s.unicode_len();
    if np >= ns {
        return false;
    }
    let mut i: usize = 0;
    while i < np
        invariant
            np == prefix@.len(),
            ns == s@.len(),
            np < ns,
            i <= np,
            forall|j: int| 0 <= j < i ==> s@[j] == prefix@[j],
        decreases np - i,
    {
        if s.get_char(i) != prefix.get_char(i) {
            assert(s@.take(np as int)[i as int] != prefix@[i as int]);
            return false;
        }
        i = i + 1;
    }
    proof {
        assert(s@.take(np as int) =~= prefix@);
    }
    s.get_char(np) == '/'
}

/// The index of the first root whose host directory properly prefixes
/// the real path.
pub open spec fn spec_owning_root(roots: Seq<SourcePath>, rpath: Seq<char>) -> Option<int> {
    if exists|i: int| 0 <= i < roots.len() && spec_path_prefix((#[trigger] roots[i]).path@, rpath) {
        Some(
            choose|i: int|
                0 <= i < roots.len() && spec_path_prefix((#[trigger] roots[i]).path@, rpath)
                    && forall|j: int| 0 <= j < i ==> !spec_path_prefix(roots[j].path@, rpath),
        )
    } else {
        None
    }
}

/// The virtual path a real host file appears under: within the first
/// root whose directory prefixes it, the mount name followed by the
/// relative path — with the extension rewritten to `heic` when the file
/// is a recognized image.
pub open spec fn spec_virtual_path_for(roots: Seq<SourcePath>, rpath: Seq<char>, is_image: bool)
    -> Option<Seq<char>> {
    match spec_owning_root(roots, rpath) {
        Some(i) => {
            let rel = rpath.skip(roots[i].path@.len() as int + 1);
            let shown = if is_image {
                spec_replace_ext(rel, seq!['h', 'e', 'i', 'c'])
            } else {
                rel
            };
            Some(spec_join2(roots[i].mount_name@, shown))
        },
        None => None,
    }
}

/// Maps a real host path to its virtual path, given whether the format
/// detector recognized the file as an image.
pub fn get_virtual_path(real_path: &str, roots: &Vec<SourcePath>, is_image: bool) -> (r: Option<
    String,
>)
    ensures
        match r {
            Some(p) => spec_virtual_path_for(roots@, real_path@, is_image) == Some(p@),
            None => spec_virtual_path_for(roots@, real_path@, is_image) is None,
        },
{
    proof {
        reveal_strlit("heic");
        assert("heic"@ =~= seq!['h', 'e', 'i', 'c']);
    }
    let n: usize = roots.len();
    let mut i: usize = 0;
    while i < n
        invariant
            n == roots@.len(),
            i <= n,
            "heic"@ == seq!['h', 'e', 'i', 'c'],
            forall|j: int| 0 <= j < i ==> !spec_path_prefix((#[trigger] roots@[j]).path@, real_path@),
        decreases n - i,
    {
        if path_prefix(roots[i].path.as_str(), real_path) {
            proof {
                let w = choose|w: int|
                    0 <= w < roots@.len() && spec_path_prefix((#[trigger] roots@[w]).path@, real_path@)
                        && forall|j: int| 0 <= j < w ==> !spec_path_prefix(roots@[j].path@, real_path@);
                assert(!(w < i as int) && !((i as int) < w));
            }
            let np: usize = roots[i].path.as_str().unicode_len();
            let ns: usize = real_path.unicode_len();
            let rel: &str = real_path.substring_char(np + 1, ns);
            let shown: String = if is_image {
                replace_extension(rel, "heic")
            } else {
                rel.to_owned()
            };
            proof {
                assert(rel@ =~= real_path@.skip(roots@[i as int].path@.len() as int + 1));
            }
            return Some(join_path(roots[i].mount_name.as_str(), shown.as_str()));
        }
        i = i + 1;
    }
    proof {
        if exists|w: int| 0 <= w < roots@.len() && spec_path_prefix((#[trigger] roots@[w]).path@, real_path@) {
            let w = choose|w: int|
                0 <= w < roots@.len() && spec_path_prefix((#[trigger] roots@[w]).path@, real_path@);
        }
    }
    None
}

} // verus!
