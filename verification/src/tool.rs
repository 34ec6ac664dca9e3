//! Names and versions of engine builds, and the release manifest pruned to
//! what the local platform can use.

use crate::handler::{
    lemma_flitter_is_filter, project_record, projected_doc, text_of, text_under,
    DocumentHandler,
};
use crate::json::{
    copy_values, lemma_array_view, lemma_object_view, lookup, views_of, with_member, Json,
    JsonView, Record,
};
use crate::tags::{any_keyword_in, is_support_file, supported_endings, Architecture, Tag, OS};
use crate::text::{
    ends_with, has_prefix, has_suffix, head, head_before, replace, replace_all, starts_with,
};
use vstd::prelude::*;
use vstd::string::StringExecFns;

verus! {

/// The pattern of a version number: two or three runs of digits with dots
/// between them.
pub open spec fn version_pattern() -> Seq<char> {
    "(\\d+\\.\\d+(?:\\.\\d+)?)"@
}

/// What the first capture group of a pattern holds in the leftmost match of
/// the pattern in a text, as the `regex` crate finds it. There is none where
/// the pattern is no regular expression, where the text has no match, or
/// where the group takes no part in the match.
pub uninterp spec fn first_capture(pattern: Seq<char>, text: Seq<char>) -> Option<Seq<char>>;

/// What an optional string holds.
pub open spec fn option_string(s: Option<String>) -> Option<Seq<char>> {
    match s {
        Some(t) => Some(t@),
        None => None,
    }
}

/// Calls `regex::Regex::new` on the pattern, `Regex::captures` on the text
/// and `Captures::get` for the first group. The result is a function of the
/// pattern and the text alone.
#[verifier::external_body]
fn capture_first(pattern: &str, text: &str) -> (found: Option<String>)
    ensures
        option_string(found) == first_capture(pattern@, text@),
{
    match regex::Regex::new(pattern) {
        Ok(re) => re.captures(text).and_then(|c| c.get(1)).map(|m| m.as_str().to_string()),
        Err(_) => None,
    }
}

/// The name of an engine build without the endings of its archive and of
/// its executable.
pub open spec fn engine_name(engine: Seq<char>) -> Seq<char> {
    replace_all(replace_all(engine, ".zip"@, ""@), ".exe"@, ""@)
}

/// The name of an engine build without the endings of its archive and of
/// its executable.
pub fn format_engine_name(engine: &str) -> (name: String)
    ensures
        name@ == engine_name(engine@),
{
    let without_zip = replace(engine, ".zip", "");
    replace(without_zip.as_str(), ".exe", "")
}

/// The first version number in the name of an engine build.
pub fn extract_version(engine: &str) -> (version: Option<String>)
    ensures
        option_string(version) == first_capture(version_pattern(), engine@),
{
    capture_first("(\\d+\\.\\d+(?:\\.\\d+)?)", engine)
}

/// The major bucket of a release tag: what stands before its first dot,
/// followed by `.x`.
pub open spec fn major_of(tag_name: Seq<char>) -> Seq<char> {
    head_before(tag_name, '.') + ".x"@
}

/// The major bucket of a release tag.
pub fn get_major_from_tag(tag_name: &str) -> (major: String)
    ensures
        major@ == major_of(tag_name@),
{
    let mut major = head(tag_name, '.');
    major.append(".x");
    major
}

/// The two directory levels under which a version is kept: its major
/// bucket and the version itself.
pub struct Levels {
    pub major: String,
    pub version: String,
}

/// The directory levels of a version.
pub fn levels_of(version: String) -> (levels: Levels)
    ensures
        levels.version@ == version@,
        levels.major@ == major_of(version@),
{
    let major = get_major_from_tag(version.as_str());
    Levels { major, version }
}

/// The directory levels for an engine build: those of the first version
/// number in its name. There are none where the name holds no version.
pub fn get_levels_dir(engine: &str) -> (levels: Option<Levels>)
    ensures
        match first_capture(version_pattern(), engine@) {
            Some(version) => levels matches Some(l) && l.version@ == version && l.major@
                == major_of(version),
            None => levels is None,
        },
{
    match extract_version(engine) {
        Some(version) => Some(levels_of(version)),
        None => None,
    }
}

/// Why the release manifest gave no answer.
#[derive(Debug, Clone, Copy, PartialEq, Eq, Structural)]
pub enum ManifestError {
    /// There is no manifest: it has to be synchronised first.
    ManifestMissing,
    /// The manifest is not built as release manifests are.
    Malformed,
    /// No release or asset answers the request.
    AssetNotFound,
    /// More than one asset answers the request.
    AmbiguousAsset,
}

impl ManifestError {
    /// The error in words.
    pub fn message(&self) -> (text: &'static str)
        ensures
            text@ == self.words(),
    {
        match self {
            ManifestError::ManifestMissing => "Release manifest is missing, sync first",
            ManifestError::Malformed => "Release manifest is malformed",
            ManifestError::AssetNotFound => "Asset not found",
            ManifestError::AmbiguousAsset => "More than one asset matches",
        }
    }

    /// What the error says, in words.
    pub open spec fn words(&self) -> Seq<char> {
        match self {
            ManifestError::ManifestMissing => "Release manifest is missing, sync first"@,
            ManifestError::Malformed => "Release manifest is malformed"@,
            ManifestError::AssetNotFound => "Asset not found"@,
            ManifestError::AmbiguousAsset => "More than one asset matches"@,
        }
    }
}

/// The fields that are kept of an asset.
pub open spec fn asset_fields() -> Seq<Seq<char>> {
    seq!["name"@, "size"@, "updated_at"@, "browser_download_url"@]
}

/// Whether a file of this name can be used here: its name holds a supported
/// ending, and where it ends in `.zip`, it also names the local operating
/// system and the local architecture.
pub open spec fn usable(name: Seq<char>, os: OS, arch: Architecture) -> bool {
    &&& any_keyword_in(supported_endings(), name)
    &&& ends_with(name, ".zip"@) ==> any_keyword_in(os.keywords(), name) && any_keyword_in(
        arch.keywords(),
        name,
    )
}

/// Whether an asset can be used here, by its name.
pub open spec fn asset_usable(asset: JsonView, os: OS, arch: Architecture) -> bool {
    match text_under(asset, "name"@) {
        Some(name) => usable(name, os, arch),
        None => false,
    }
}

/// Whether every item is a record with a text under `key`.
pub open spec fn all_texts_under(docs: Seq<JsonView>, key: Seq<char>) -> bool {
    forall|i: int| 0 <= i < docs.len() ==> text_under(#[trigger] docs[i], key) is Some
}

/// Whether every item is a record.
pub open spec fn all_records(docs: Seq<JsonView>) -> bool {
    forall|i: int| 0 <= i < docs.len() ==> (#[trigger] docs[i]) is Object
}

/// The assets of a release, each cut down to the kept fields, without those
/// that cannot be used here, in order. The assets must be an array of
/// records that each have a text as name.
pub open spec fn pruned(assets: JsonView, os: OS, arch: Architecture) -> Result<
    JsonView,
    ManifestError,
> {
    match assets {
        JsonView::Array(items) => {
            let cut = items.map_values(|a: JsonView| projected_doc(a, asset_fields()));
            if all_records(items) && all_texts_under(cut, "name"@) {
                Ok(JsonView::Array(cut.filter(|a: JsonView| asset_usable(a, os, arch))))
            } else {
                Err(ManifestError::Malformed)
            }
        },
        _ => Err(ManifestError::Malformed),
    }
}

/// One release with its assets pruned, cut down to the listed fields. A
/// release without assets is only cut down.
pub open spec fn loaded_release(
    release: JsonView,
    fields: Seq<Seq<char>>,
    os: OS,
    arch: Architecture,
) -> Result<JsonView, ManifestError> {
    match release {
        JsonView::Object(rec) => match lookup(rec, "assets"@) {
            Some(assets) => match pruned(assets, os, arch) {
                Ok(kept) => Ok(
                    projected_doc(JsonView::Object(with_member(rec, "assets"@, kept)), fields),
                ),
                Err(e) => Err(e),
            },
            None => Ok(projected_doc(release, fields)),
        },
        _ => Err(ManifestError::Malformed),
    }
}

/// The releases of a manifest, each with its assets pruned and cut down to
/// the listed fields, in order.
pub open spec fn loaded(
    manifest: Option<JsonView>,
    fields: Seq<Seq<char>>,
    os: OS,
    arch: Architecture,
) -> Result<Seq<JsonView>, ManifestError> {
    match manifest {
        None => Err(ManifestError::ManifestMissing),
        Some(JsonView::Array(releases)) => if forall|i: int|
            0 <= i < releases.len() ==> loaded_release(
                #[trigger] releases[i],
                fields,
                os,
                arch,
            ) is Ok {
            Ok(releases.map_values(|r: JsonView| loaded_release(r, fields, os, arch)->Ok_0))
        } else {
            Err(ManifestError::Malformed)
        },
        Some(_) => Err(ManifestError::Malformed),
    }
}

/// A release that cannot be loaded is malformed.
pub proof fn lemma_release_errors(
    release: JsonView,
    fields: Seq<Seq<char>>,
    os: OS,
    arch: Architecture,
)
    ensures
        loaded_release(release, fields, os, arch) matches Err(e) ==> e == ManifestError::Malformed,
{
}

/// The content of an optional value.
pub open spec fn option_json(value: Option<&Json>) -> Option<JsonView> {
    match value {
        Some(j) => Some(j@),
        None => None,
    }
}

/// The assets of a release without those that cannot be used here.
fn prune_assets(assets: &Json, os: OS, arch: Architecture) -> (kept: Result<Json, ManifestError>)
    ensures
        match kept {
            Ok(k) => pruned(assets@, os, arch) == Ok::<JsonView, ManifestError>(k@),
            Err(e) => pruned(assets@, os, arch) == Err::<JsonView, ManifestError>(e),
        },
{
    let items = match assets.as_array() {
        Some(items) => items,
        None => {
            return Err(ManifestError::Malformed);
        },
    };
    let ghost all = views_of(items@);
    let ghost cut = all.map_values(|a: JsonView| projected_doc(a, asset_fields()));
    let handler = DocumentHandler::new(copy_values(items));
    let fields: [&'static str; 4] = ["name", "size", "updated_at", "browser_download_url"];
    assert(crate::handler::names_of(fields@) =~= asset_fields());
    let projected = match handler.get_specific_fields(fields.as_slice()) {
        Ok(projected) => projected,
        Err(_) => {
            return Err(ManifestError::Malformed);
        },
    };
    assert(projected@ == cut);
    let mut i: usize = 0;
    while i < projected.document.len()
        invariant
            i <= projected.document.len(),
            projected@ == cut,
            assets@ == JsonView::Array(all),
            cut == all.map_values(|a: JsonView| projected_doc(a, asset_fields())),
            forall|k: int| 0 <= k < i ==> text_under(#[trigger] projected@[k], "name"@) is Some,
        decreases projected.document.len() - i,
    {
        if text_of(&projected.document[i], "name").is_none() {
            assert(text_under(cut[i as int], "name"@) is None);
            assert(!all_texts_under(cut, "name"@));
            return Err(ManifestError::Malformed);
        }
        i += 1;
    }
    let ghost pred = |a: JsonView| asset_usable(a, os, arch);
    let usable_here = |asset: &Json| -> (keep: bool)
        requires
            text_under(asset@, "name"@) is Some,
        ensures
            keep == asset_usable(asset@, os, arch),
        {
            let name = text_of(asset, "name").unwrap();
            let supported = is_support_file(name);
            if has_suffix(name, ".zip") {
                supported && os.tag_in(name) && arch.tag_in(name)
            } else {
                supported
            }
        };
    assert forall|k: int| 0 <= k < projected.document.len() implies call_requires(
        usable_here,
        (&projected.document[k],),
    ) by {
        assert(text_under(projected@[k], "name"@) is Some);
    }
    let kept = projected.flitter(usable_here).unwrap();
    proof {
        lemma_flitter_is_filter(usable_here, projected.document@, kept@, pred);
        lemma_array_view(kept.document);
    }
    Ok(Json::Array(kept.document))
}

/// One release with its assets pruned, cut down to the listed fields.
fn load_release(release: &Json, fields: &[&str], os: OS, arch: Architecture) -> (out: Result<
    Json,
    ManifestError,
>)
    ensures
        match out {
            Ok(r) => loaded_release(release@, crate::handler::names_of(fields@), os, arch) == Ok::<
                JsonView,
                ManifestError,
            >(r@),
            Err(e) => loaded_release(release@, crate::handler::names_of(fields@), os, arch)
                == Err::<JsonView, ManifestError>(e),
        },
{
    let rec = match release.as_object() {
        Some(rec) => rec,
        None => {
            return Err(ManifestError::Malformed);
        },
    };
    let cut = match rec.get("assets") {
        Some(assets) => {
            let kept = match prune_assets(assets, os, arch) {
                Ok(kept) => kept,
                Err(e) => {
                    return Err(e);
                },
            };
            let mut changed = rec.clone();
            changed.insert("assets".to_owned(), kept);
            project_record(&changed, fields)
        },
        None => project_record(rec, fields),
    };
    proof {
        lemma_object_view(cut);
    }
    Ok(Json::Object(cut))
}

/// The releases of the manifest, each with its assets pruned to what the
/// local platform can use and cut down to the listed fields. `manifest` is
/// the parsed manifest file, or nothing where there is no such file.
pub fn load_remote_engines_handler(
    manifest: Option<&Json>,
    fields: &[&str],
    os: OS,
    arch: Architecture,
) -> (handler: Result<DocumentHandler, ManifestError>)
    ensures
        match handler {
            Ok(h) => loaded(option_json(manifest), crate::handler::names_of(fields@), os, arch)
                == Ok::<Seq<JsonView>, ManifestError>(h@),
            Err(e) => loaded(option_json(manifest), crate::handler::names_of(fields@), os, arch)
                == Err::<Seq<JsonView>, ManifestError>(e),
        },
{
    let ghost names = crate::handler::names_of(fields@);
    let releases = match manifest {
        None => {
            return Err(ManifestError::ManifestMissing);
        },
        Some(json) => match json.as_array() {
            Some(releases) => releases,
            None => {
                return Err(ManifestError::Malformed);
            },
        },
    };
    let ghost all = views_of(releases@);
    let mut out: Vec<Json> = Vec::new();
    let mut i: usize = 0;
    while i < releases.len()
        invariant
            i <= releases.len(),
            all == views_of(releases@),
            option_json(manifest) == Some(JsonView::Array(all)),
            names == crate::handler::names_of(fields@),
            out.len() == i,
            forall|k: int|
                0 <= k < i ==> loaded_release(#[trigger] all[k], names, os, arch) == Ok::<
                    JsonView,
                    ManifestError,
                >(out[k]@),
        decreases releases.len() - i,
    {
        match load_release(&releases[i], fields, os, arch) {
            Ok(r) => {
                out.push(r);
            },
            Err(e) => {
                assert(loaded_release(all[i as int], names, os, arch) is Err);
                assert(e == ManifestError::Malformed) by {
                    lemma_release_errors(all[i as int], names, os, arch);
                }
                return Err(e);
            },
        }
        i += 1;
    }
    let handler = DocumentHandler::new(out);
    proof {
        assert(handler@ =~= all.map_values(
            |r: JsonView| loaded_release(r, names, os, arch)->Ok_0,
        ));
    }
    Ok(handler)
}

/// The fields that are kept of a release when its assets are looked up.
pub open spec fn release_fields() -> Seq<Seq<char>> {
    seq!["tag_name"@, "assets"@]
}

/// Whether the tag of a release begins with the version.
pub open spec fn tagged(release: JsonView, version: Seq<char>) -> bool {
    match text_under(release, "tag_name"@) {
        Some(tag) => starts_with(tag, version),
        None => false,
    }
}

/// Whether an asset can be shown: it has a text under `updated_at` and an
/// integer that 64 unsigned bits can hold under `size`.
pub open spec fn displayable(asset: JsonView) -> bool {
    &&& text_under(asset, "updated_at"@) is Some
    &&& asset matches JsonView::Object(rec) && lookup(rec, "size"@) matches Some(
        JsonView::Integer(n),
    ) && 0 <= n <= u64::MAX
}

/// The asset with its time of update cut down to the date: what stands
/// before the letter `T`.
pub open spec fn dated(asset: JsonView) -> JsonView {
    match asset {
        JsonView::Object(rec) => match lookup(rec, "updated_at"@) {
            Some(JsonView::Text(t)) => JsonView::Object(
                with_member(rec, "updated_at"@, JsonView::Text(head_before(t, 'T'))),
            ),
            _ => asset,
        },
        _ => asset,
    }
}

/// The assets of the first release whose tag begins with the version, each
/// with its time of update cut down to the date. Every release must have a
/// text as tag, and every asset of the release must be displayable.
pub open spec fn release_assets(releases: Seq<JsonView>, version: Seq<char>) -> Result<
    Seq<JsonView>,
    ManifestError,
> {
    if !all_texts_under(releases, "tag_name"@) {
        Err(ManifestError::Malformed)
    } else {
        let hits = releases.filter(|r: JsonView| tagged(r, version));
        if hits.len() == 0 {
            Err(ManifestError::AssetNotFound)
        } else {
            match hits[0] {
                JsonView::Object(rec) => match lookup(rec, "assets"@) {
                    Some(JsonView::Array(items)) => if forall|i: int|
                        0 <= i < items.len() ==> displayable(#[trigger] items[i]) {
                        Ok(items.map_values(|a: JsonView| dated(a)))
                    } else {
                        Err(ManifestError::Malformed)
                    },
                    _ => Err(ManifestError::Malformed),
                },
                _ => Err(ManifestError::Malformed),
            }
        }
    }
}

/// The assets that the manifest lists for a version and that the local
/// platform can use.
pub open spec fn assets_for(
    manifest: Option<JsonView>,
    version: Seq<char>,
    os: OS,
    arch: Architecture,
) -> Result<Seq<JsonView>, ManifestError> {
    match loaded(manifest, release_fields(), os, arch) {
        Ok(releases) => release_assets(releases, version),
        Err(e) => Err(e),
    }
}

/// An asset with its time of update cut down to the date.
fn date_asset(asset: &Json) -> (out: Option<Json>)
    ensures
        match out {
            Some(a) => displayable(asset@) && a@ == dated(asset@),
            None => !displayable(asset@),
        },
{
    let rec = match asset.as_object() {
        Some(rec) => rec,
        None => {
            return None;
        },
    };
    let date = match rec.get("updated_at") {
        Some(value) => match value.as_str() {
            Some(t) => head(t, 'T'),
            None => {
                return None;
            },
        },
        None => {
            return None;
        },
    };
    match rec.get("size") {
        Some(value) => {
            if value.as_u64().is_none() {
                return None;
            }
        },
        None => {
            return None;
        },
    }
    let mut changed = rec.clone();
    changed.insert("updated_at".to_owned(), Json::Text(date));
    proof {
        lemma_object_view(changed);
    }
    Some(Json::Object(changed))
}

/// The assets of the first of the loaded releases whose tag begins with the
/// version.
pub fn assets_of_release(releases: &DocumentHandler, version: &str) -> (assets: Result<
    DocumentHandler,
    ManifestError,
>)
    ensures
        match assets {
            Ok(h) => release_assets(releases@, version@) == Ok::<Seq<JsonView>, ManifestError>(h@),
            Err(e) => release_assets(releases@, version@) == Err::<Seq<JsonView>, ManifestError>(
                e,
            ),
        },
{
    let mut i: usize = 0;
    while i < releases.document.len()
        invariant
            i <= releases.document.len(),
            forall|k: int| 0 <= k < i ==> text_under(#[trigger] releases@[k], "tag_name"@) is Some,
        decreases releases.document.len() - i,
    {
        if text_of(&releases.document[i], "tag_name").is_none() {
            assert(text_under(releases@[i as int], "tag_name"@) is None);
            return Err(ManifestError::Malformed);
        }
        i += 1;
    }
    let ghost pred = |r: JsonView| tagged(r, version@);
    let of_version = |release: &Json| -> (hit: bool)
        ensures
            hit == tagged(release@, version@),
        {
            match text_of(release, "tag_name") {
                Some(tag) => has_prefix(tag, version),
                None => false,
            }
        };
    let hits = releases.flitter(of_version).unwrap();
    proof {
        lemma_flitter_is_filter(of_version, releases.document@, hits@, pred);
    }
    if hits.document.len() == 0 {
        return Err(ManifestError::AssetNotFound);
    }
    let first = &hits.document[0];
    assert(first@ == hits@[0]);
    let items = match first.as_object() {
        Some(rec) => match rec.get("assets") {
            Some(assets) => match assets.as_array() {
                Some(items) => items,
                None => {
                    return Err(ManifestError::Malformed);
                },
            },
            None => {
                return Err(ManifestError::Malformed);
            },
        },
        None => {
            return Err(ManifestError::Malformed);
        },
    };
    let ghost all = views_of(items@);
    assert(all_texts_under(releases@, "tag_name"@));
    assert(release_assets(releases@, version@) == (if forall|i: int|
        0 <= i < all.len() ==> displayable(#[trigger] all[i]) {
        Ok::<Seq<JsonView>, ManifestError>(all.map_values(|a: JsonView| dated(a)))
    } else {
        Err::<Seq<JsonView>, ManifestError>(ManifestError::Malformed)
    }));
    let mut out: Vec<Json> = Vec::new();
    let mut j: usize = 0;
    while j < items.len()
        invariant
            j <= items.len(),
            all == views_of(items@),
            release_assets(releases@, version@) == (if forall|i: int|
                0 <= i < all.len() ==> displayable(#[trigger] all[i]) {
                Ok::<Seq<JsonView>, ManifestError>(all.map_values(|a: JsonView| dated(a)))
            } else {
                Err::<Seq<JsonView>, ManifestError>(ManifestError::Malformed)
            }),
            out.len() == j,
            forall|k: int| 0 <= k < j ==> displayable(#[trigger] all[k]),
            forall|k: int| 0 <= k < j ==> (#[trigger] out[k])@ == dated(all[k]),
        decreases items.len() - j,
    {
        match date_asset(&items[j]) {
            Some(a) => {
                out.push(a);
            },
            None => {
                assert(!displayable(all[j as int]));
                return Err(ManifestError::Malformed);
            },
        }
        j += 1;
    }
    let handler = DocumentHandler::new(out);
    proof {
        assert(handler@ =~= all.map_values(|a: JsonView| dated(a)));
    }
    Ok(handler)
}

/// The assets that the manifest lists for a version and that the local
/// platform can use, each with its time of update cut down to the date.
pub fn assets_of_version(version: &str, manifest: Option<&Json>, os: OS, arch: Architecture) -> (assets:
    Result<DocumentHandler, ManifestError>)
    ensures
        match assets {
            Ok(h) => assets_for(option_json(manifest), version@, os, arch) == Ok::<
                Seq<JsonView>,
                ManifestError,
            >(h@),
            Err(e) => assets_for(option_json(manifest), version@, os, arch) == Err::<
                Seq<JsonView>,
                ManifestError,
            >(e),
        },
{
    let fields: [&'static str; 2] = ["tag_name", "assets"];
    assert(crate::handler::names_of(fields@) =~= release_fields());
    match load_remote_engines_handler(manifest, fields.as_slice(), os, arch) {
        Ok(releases) => assets_of_release(&releases, version),
        Err(e) => Err(e),
    }
}

/// The assets that the manifest lists for the version in a file name and
/// that the local platform can use. A name without a version finds nothing.
pub fn load_remote_engine_assets(
    file_name: &str,
    manifest: Option<&Json>,
    os: OS,
    arch: Architecture,
) -> (assets: Result<DocumentHandler, ManifestError>)
    ensures
        match first_capture(version_pattern(), file_name@) {
            Some(version) => match assets {
                Ok(h) => assets_for(option_json(manifest), version, os, arch) == Ok::<
                    Seq<JsonView>,
                    ManifestError,
                >(h@),
                Err(e) => assets_for(option_json(manifest), version, os, arch) == Err::<
                    Seq<JsonView>,
                    ManifestError,
                >(e),
            },
            None => assets == Err::<DocumentHandler, ManifestError>(ManifestError::AssetNotFound),
        },
{
    match extract_version(file_name) {
        Some(version) => assets_of_version(version.as_str(), manifest, os, arch),
        None => Err(ManifestError::AssetNotFound),
    }
}

} // verus!
