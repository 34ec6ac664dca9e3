//! Where things are kept on disk: the cache and the installed versions
//! under major bucket and version, the export templates, the active link
//! and the release manifest. Paths are texts, joined with a slash.

use crate::config::{join, joined};
use crate::install::{extract_template, template_dir, InstallTarget};
use crate::tool::{
    first_capture, get_levels_dir, major_of, option_string, version_pattern, Levels,
};
use vstd::prelude::*;

verus! {

/// The directory of a version below `base`: the major bucket, then the
/// version.
pub open spec fn version_dir_of(base: Seq<char>, version: Seq<char>) -> Seq<char> {
    joined(joined(base, major_of(version)), version)
}

/// The name of the checksum list in the cache of a version.
pub open spec fn sums_name() -> Seq<char> {
    "SHA512-SUMS.txt"@
}

/// The path of the checksum list of a version in the cache.
pub open spec fn sums_path(cache: Seq<char>, version: Seq<char>) -> Seq<char> {
    joined(version_dir_of(cache, version), sums_name())
}

/// The path of an installed build below the directory of installed
/// versions: major bucket, version, and the name of the build.
pub open spec fn place(home: Seq<char>, target: InstallTarget) -> Seq<char> {
    joined(joined(joined(home, target.major@), target.version@), target.name@)
}

/// What stands for a path made from the version in a name: the path for
/// the version, where the name holds one.
pub open spec fn for_version_in(
    name: Seq<char>,
    path: spec_fn(Seq<char>) -> Seq<char>,
) -> Option<Seq<char>> {
    match first_capture(version_pattern(), name) {
        Some(version) => Some(path(version)),
        None => None,
    }
}

/// The directory of a version below `base`, from the levels of the
/// version.
pub fn version_dir(base: &str, levels: &Levels) -> (dir: String)
    ensures
        dir@ == joined(joined(base@, levels.major@), levels.version@),
{
    let bucket = join(base, levels.major.as_str());
    join(bucket.as_str(), levels.version.as_str())
}

/// The directory of the cache for the version in the name of a file.
/// There is none where the name holds no version.
pub fn cache_dir(cache: &str, file_name: &str) -> (dir: Option<String>)
    ensures
        option_string(dir) == for_version_in(
            file_name@,
            |version: Seq<char>| version_dir_of(cache@, version),
        ),
{
    match get_levels_dir(file_name) {
        Some(levels) => Some(version_dir(cache, &levels)),
        None => None,
    }
}

/// The path of a file in the cache: in the directory of its version, under
/// its own name.
pub fn cached_file(cache: &str, file_name: &str) -> (path: Option<String>)
    ensures
        option_string(path) == for_version_in(
            file_name@,
            |version: Seq<char>| joined(version_dir_of(cache@, version), file_name@),
        ),
{
    match cache_dir(cache, file_name) {
        Some(dir) => Some(join(dir.as_str(), file_name)),
        None => None,
    }
}

/// The path of the checksum list for a file: in the directory of the cache
/// for the version of the file, so that the lists of two versions never
/// mix.
pub fn sums_file(cache: &str, file_name: &str) -> (path: Option<String>)
    ensures
        option_string(path) == for_version_in(
            file_name@,
            |version: Seq<char>| sums_path(cache@, version),
        ),
{
    match cache_dir(cache, file_name) {
        Some(dir) => Some(join(dir.as_str(), "SHA512-SUMS.txt")),
        None => None,
    }
}

/// The path of an installed build.
pub fn place_of(home: &str, target: &InstallTarget) -> (path: String)
    ensures
        path@ == place(home@, *target),
{
    let bucket = join(home, target.major.as_str());
    let version = join(bucket.as_str(), target.version.as_str());
    join(version.as_str(), target.name.as_str())
}

/// The directory in which a package of export templates is unpacked, below
/// the data directory.
pub fn template_path(data: &str, file: &str) -> (path: String)
    ensures
        path@ == joined(
            joined(joined(data@, "Godot"@), "export_templates"@),
            template_dir(file@),
        ),
{
    let godot = join(data, "Godot");
    let templates = join(godot.as_str(), "export_templates");
    let dir = extract_template(file);
    join(templates.as_str(), dir.as_str())
}

/// The path of the link to the active version.
pub fn active_link(root: &str) -> (path: String)
    ensures
        path@ == joined(root@, "default"@),
{
    join(root, "default")
}

/// The path of the release manifest.
pub fn manifest_file(data: &str) -> (path: String)
    ensures
        path@ == joined(data@, "releases.json"@),
{
    join(data, "releases.json")
}

/// Whether a text holds no slash.
pub open spec fn one_level(name: Seq<char>) -> bool {
    forall|i: int| 0 <= i < name.len() ==> name[i] != '/'
}

/// A path names one entry in one directory: where two joined paths are the
/// same and neither entry holds a slash, the entries are the same and so
/// are the directories.
pub proof fn lemma_joined_is_unique(a: Seq<char>, x: Seq<char>, b: Seq<char>, y: Seq<char>)
    requires
        joined(a, x) == joined(b, y),
        one_level(x),
        one_level(y),
    ensures
        x == y,
        a == b,
{
    reveal_strlit("/");
    let p = joined(a, x);
    let q = joined(b, y);
    assert(p.len() == a.len() + 1 + x.len());
    assert(q.len() == b.len() + 1 + y.len());
    if x.len() < y.len() {
        let at = p.len() - x.len() - 1;
        assert(p[at] == '/');
        assert(q[at] == y[at - b.len() - 1]);
    }
    if y.len() < x.len() {
        let at = q.len() - y.len() - 1;
        assert(q[at] == '/');
        assert(p[at] == x[at - a.len() - 1]);
    }
    assert(x =~= y) by {
        assert forall|i: int| 0 <= i < x.len() implies x[i] == y[i] by {
            assert(p[a.len() + 1 + i] == x[i]);
            assert(q[b.len() + 1 + i] == y[i]);
        }
    }
    assert(a =~= b) by {
        assert forall|i: int| 0 <= i < a.len() implies a[i] == b[i] by {
            assert(p[i] == a[i]);
            assert(q[i] == b[i]);
        }
    }
}

/// The checksum lists of two versions are two files: though they have one
/// name, they lie in the directories of their versions.
pub proof fn lemma_sums_files_are_apart(cache: Seq<char>, one: Seq<char>, other: Seq<char>)
    requires
        one_level(one),
        one_level(other),
        one != other,
    ensures
        sums_path(cache, one) != sums_path(cache, other),
{
    reveal_strlit("SHA512-SUMS.txt");
    if sums_path(cache, one) == sums_path(cache, other) {
        lemma_joined_is_unique(
            version_dir_of(cache, one),
            sums_name(),
            version_dir_of(cache, other),
            sums_name(),
        );
        lemma_joined_is_unique(
            joined(cache, major_of(one)),
            one,
            joined(cache, major_of(other)),
            other,
        );
    }
}

} // verus!
