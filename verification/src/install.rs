//! The acquire pipeline: which address to fetch, what the checksum list
//! says, where an archive is unpacked, and the states an installation goes
//! through.

use crate::handler::{lemma_flitter_is_filter, text_of, text_under, DocumentHandler};
use crate::json::{Json, JsonView};
use crate::tags::{Architecture, OS};
use crate::text::{
    chars_of, contains, contains_text, equal, find_text, first_occurrence, lines, lines_of,
    replace, replace_all, slice_chars, string_of, trim, trimmed_text, views_of,
};
use crate::tool::{
    assets_for, engine_name, first_capture, format_engine_name, get_levels_dir,
    load_remote_engine_assets, major_of, option_json, option_string, version_pattern,
    ManifestError,
};
use crate::text::{ends_with, has_suffix};
use crate::utils::{digest_limit, hex_of, planned, sha512_of, sha512sum, DownloadPlan};
use vstd::prelude::*;

verus! {

/// Whether the name of an asset holds `part`.
pub open spec fn named_like(asset: JsonView, part: Seq<char>) -> bool {
    match text_under(asset, "name"@) {
        Some(name) => contains_text(name, part),
        None => false,
    }
}

/// The address an asset is fetched from.
pub open spec fn url_of(asset: JsonView) -> Result<Seq<char>, ManifestError> {
    match text_under(asset, "browser_download_url"@) {
        Some(url) => Ok(url),
        None => Err(ManifestError::Malformed),
    }
}

/// The address of the one asset whose name holds the file name. No such
/// asset, or more than one, is an error.
pub open spec fn download_url(assets: Seq<JsonView>, file_name: Seq<char>) -> Result<
    Seq<char>,
    ManifestError,
> {
    let hits = assets.filter(|a: JsonView| named_like(a, file_name));
    if hits.len() == 0 {
        Err(ManifestError::AssetNotFound)
    } else if hits.len() > 1 {
        Err(ManifestError::AmbiguousAsset)
    } else {
        url_of(hits[0])
    }
}

/// The marker in the name of a checksum list.
pub open spec fn sums_marker() -> Seq<char> {
    "SHA512-SUMS"@
}

/// The address of the first asset that is a checksum list.
pub open spec fn sums_url(assets: Seq<JsonView>) -> Result<Seq<char>, ManifestError> {
    let hits = assets.filter(|a: JsonView| named_like(a, sums_marker()));
    if hits.len() == 0 {
        Err(ManifestError::AssetNotFound)
    } else {
        url_of(hits[0])
    }
}

/// What a result holds, with the text in place of the string.
pub open spec fn result_text(r: Result<String, ManifestError>) -> Result<Seq<char>, ManifestError> {
    match r {
        Ok(s) => Ok(s@),
        Err(e) => Err(e),
    }
}

/// The assets whose name holds `part`, in order.
fn assets_named(assets: &DocumentHandler, part: &str) -> (hits: DocumentHandler)
    ensures
        hits@ == assets@.filter(|a: JsonView| named_like(a, part@)),
{
    let ghost pred = |a: JsonView| named_like(a, part@);
    let holds_part = |asset: &Json| -> (hit: bool)
        ensures
            hit == named_like(asset@, part@),
        {
            match text_of(asset, "name") {
                Some(name) => contains(name, part),
                None => false,
            }
        };
    let hits = assets.flitter(holds_part).unwrap();
    proof {
        lemma_flitter_is_filter(holds_part, assets.document@, hits@, pred);
    }
    hits
}

/// The address an asset is fetched from.
fn address_of(asset: &Json) -> (url: Result<String, ManifestError>)
    ensures
        result_text(url) == url_of(asset@),
{
    match text_of(asset, "browser_download_url") {
        Some(url) => Ok(url.to_owned()),
        None => Err(ManifestError::Malformed),
    }
}

/// The address of the one asset whose name holds the file name.
pub fn find_download_url(assets: &DocumentHandler, file_name: &str) -> (url: Result<
    String,
    ManifestError,
>)
    ensures
        result_text(url) == download_url(assets@, file_name@),
{
    let hits = assets_named(assets, file_name);
    if hits.document.len() == 0 {
        Err(ManifestError::AssetNotFound)
    } else if hits.document.len() > 1 {
        Err(ManifestError::AmbiguousAsset)
    } else {
        assert(hits.document[0]@ == hits@[0]);
        address_of(&hits.document[0])
    }
}

/// The address of the first asset that is a checksum list.
pub fn find_sums_url(assets: &DocumentHandler) -> (url: Result<String, ManifestError>)
    ensures
        result_text(url) == sums_url(assets@),
{
    let hits = assets_named(assets, "SHA512-SUMS");
    if hits.document.len() == 0 {
        Err(ManifestError::AssetNotFound)
    } else {
        assert(hits.document[0]@ == hits@[0]);
        address_of(&hits.document[0])
    }
}

/// The address to fetch a file from: that of the one asset of its version
/// whose name holds the file name.
pub fn query_url(file_name: &str, manifest: Option<&Json>, os: OS, arch: Architecture) -> (url:
    Result<String, ManifestError>)
    ensures
        result_text(url) == match first_capture(version_pattern(), file_name@) {
            Some(version) => match assets_for(option_json(manifest), version, os, arch) {
                Ok(assets) => download_url(assets, file_name@),
                Err(e) => Err(e),
            },
            None => Err(ManifestError::AssetNotFound),
        },
{
    match load_remote_engine_assets(file_name, manifest, os, arch) {
        Ok(assets) => find_download_url(&assets, file_name),
        Err(e) => Err(e),
    }
}

/// The address to fetch the checksum list of a file's version from.
pub fn query_sum_file_url(
    file_name: &str,
    manifest: Option<&Json>,
    os: OS,
    arch: Architecture,
) -> (url: Result<String, ManifestError>)
    ensures
        result_text(url) == match first_capture(version_pattern(), file_name@) {
            Some(version) => match assets_for(option_json(manifest), version, os, arch) {
                Ok(assets) => sums_url(assets),
                Err(e) => Err(e),
            },
            None => Err(ManifestError::AssetNotFound),
        },
{
    match load_remote_engine_assets(file_name, manifest, os, arch) {
        Ok(assets) => find_sums_url(&assets),
        Err(e) => Err(e),
    }
}

/// The least offset at which `pat` stands in `s`.
pub open spec fn offset_of(s: Seq<char>, pat: Seq<char>) -> int {
    choose|i: int| first_occurrence(s, pat, i)
}

/// What a line of a checksum list says of a file: where the line holds the
/// file name, the digest is what stands before the name, without the white
/// space around it.
pub open spec fn digest_in_line(line: Seq<char>, file_name: Seq<char>) -> Option<Seq<char>> {
    if contains_text(line, file_name) {
        Some(trimmed_text(line.take(offset_of(line, file_name))))
    } else {
        None
    }
}

/// What the first of the lines that holds the file name says of it.
pub open spec fn first_digest(lines: Seq<Seq<char>>, file_name: Seq<char>) -> Option<Seq<char>>
    decreases lines.len(),
{
    if lines.len() == 0 {
        None
    } else {
        match digest_in_line(lines[0], file_name) {
            Some(d) => Some(d),
            None => first_digest(lines.skip(1), file_name),
        }
    }
}

/// The digest that a checksum list gives for a file.
pub open spec fn listed_digest(sum_text: Seq<char>, file_name: Seq<char>) -> Option<Seq<char>> {
    first_digest(lines_of(sum_text), file_name)
}

/// There is one least offset.
pub proof fn lemma_offset_is(s: Seq<char>, pat: Seq<char>, i: int)
    requires
        first_occurrence(s, pat, i),
    ensures
        offset_of(s, pat) == i,
{
    let j = offset_of(s, pat);
    assert(first_occurrence(s, pat, j));
    if j < i {
        assert(false);
    }
    if i < j {
        assert(false);
    }
}

/// The digest that a checksum list gives for a file: the list is read line
/// by line, and the first line that holds the file name counts.
pub fn get_remote_sha512(sum_text: &str, file_name: &str) -> (digest: Option<String>)
    ensures
        option_string(digest) == listed_digest(sum_text@, file_name@),
{
    let text = chars_of(sum_text);
    let name = chars_of(file_name);
    let all = lines(&text);
    let ghost rows = lines_of(sum_text@);
    let mut i: usize = 0;
    assert(rows.skip(0) =~= rows);
    while i < all.len()
        invariant
            i <= all.len(),
            name@ == file_name@,
            rows == views_of(all@),
            rows == lines_of(sum_text@),
            first_digest(rows, file_name@) == first_digest(rows.skip(i as int), file_name@),
        decreases all.len() - i,
    {
        let ghost rest = rows.skip(i as int);
        assert(rest[0] == all[i as int]@);
        assert(rest.skip(1) =~= rows.skip(i + 1));
        match find_text(&all[i], &name) {
            Some(at) => {
                proof {
                    lemma_offset_is(all[i as int]@, name@, at as int);
                    assert(contains_text(all[i as int]@, name@));
                }
                let before = slice_chars(&all[i], 0, at);
                let digest = trim(&before);
                return Some(string_of(&digest));
            },
            None => {},
        }
        i += 1;
    }
    assert(rows.skip(all.len() as int) =~= Seq::<Seq<char>>::empty());
    None
}

/// Why an installation failed.
#[derive(Debug, Clone, Copy, PartialEq, Eq, Structural)]
pub enum InstallError {
    /// The transfer broke off; what arrived is kept for a later attempt.
    DownloadFailed,
    /// The digest of the file is not the one the checksum list gives.
    ChecksumMismatch,
    /// The checksum list does not name the file.
    IntegrityDataMissing,
    /// The archive could not be unpacked.
    ExtractFailed,
}

impl InstallError {
    /// The error in words.
    pub fn message(&self) -> (text: &'static str)
        ensures
            text@ == self.words(),
    {
        match self {
            InstallError::DownloadFailed => "Download failed",
            InstallError::ChecksumMismatch => "Checksum failed, file removed",
            InstallError::IntegrityDataMissing => "SHA512 not found in checksum list",
            InstallError::ExtractFailed => "Extracting failed",
        }
    }

    /// What the error says, in words.
    pub open spec fn words(&self) -> Seq<char> {
        match self {
            InstallError::DownloadFailed => "Download failed"@,
            InstallError::ChecksumMismatch => "Checksum failed, file removed"@,
            InstallError::IntegrityDataMissing => "SHA512 not found in checksum list"@,
            InstallError::ExtractFailed => "Extracting failed"@,
        }
    }
}

/// What the check of a file against the checksum list finds, given the
/// digest of the file as it is on disk.
pub open spec fn verdict(sum_text: Seq<char>, file_name: Seq<char>, local: Seq<char>) -> Result<
    (),
    InstallError,
> {
    match listed_digest(sum_text, file_name) {
        Some(listed) => if listed == local {
            Ok(())
        } else {
            Err(InstallError::ChecksumMismatch)
        },
        None => Err(InstallError::IntegrityDataMissing),
    }
}

/// Checks the digest of a file against the checksum list.
pub fn verify_digest(sum_text: &str, file_name: &str, local: &str) -> (checked: Result<
    (),
    InstallError,
>)
    ensures
        checked == verdict(sum_text@, file_name@, local@),
{
    match get_remote_sha512(sum_text, file_name) {
        Some(listed) => {
            if equal(listed.as_str(), local) {
                Ok(())
            } else {
                Err(InstallError::ChecksumMismatch)
            }
        },
        None => Err(InstallError::IntegrityDataMissing),
    }
}

/// Checks the content of a file against the checksum list: its SHA-512
/// digest in lowercase hexadecimal must be the one the list gives.
pub fn check_sha512(sum_text: &str, file_name: &str, data: &[u8]) -> (checked: Result<
    (),
    InstallError,
>)
    requires
        data@.len() < digest_limit(),
    ensures
        checked == verdict(sum_text@, file_name@, hex_of(sha512_of(data@))),
{
    let local = sha512sum(data);
    verify_digest(sum_text, file_name, local.as_str())
}

/// Where an engine build is unpacked, below the directory of installed
/// versions: major bucket, version, and the name of the build.
#[derive(Debug, Clone, PartialEq, Eq)]
pub struct InstallTarget {
    pub major: String,
    pub version: String,
    pub name: String,
}

/// Where an engine build is unpacked. There is no place for a build whose
/// name holds no version.
pub fn extract_engine(engine: &str) -> (target: Option<InstallTarget>)
    ensures
        match first_capture(version_pattern(), engine@) {
            Some(version) => target matches Some(t) && t.version@ == version && t.major@
                == major_of(version) && t.name@ == engine_name(engine@),
            None => target is None,
        },
{
    match get_levels_dir(engine) {
        Some(levels) => Some(
            InstallTarget {
                major: levels.major,
                version: levels.version,
                name: format_engine_name(engine),
            },
        ),
        None => None,
    }
}

/// The name of the directory of a package of export templates: the name of
/// its file without the ending and the prefix, with dots for underscores
/// and hyphens.
pub open spec fn template_dir(file: Seq<char>) -> Seq<char> {
    replace_all(
        replace_all(
            replace_all(replace_all(file, "_export_templates.tpz"@, ""@), "Godot_v"@, ""@),
            "_"@,
            "."@,
        ),
        "-"@,
        "."@,
    )
}

/// The name of the directory in which a package of export templates is
/// unpacked, below `Godot/export_templates` in the data directory.
pub fn extract_template(file: &str) -> (dir: String)
    ensures
        dir@ == template_dir(file@),
{
    let a = replace(file, "_export_templates.tpz", "");
    let b = replace(a.as_str(), "Godot_v", "");
    let c = replace(b.as_str(), "_", ".");
    replace(c.as_str(), "-", ".")
}

/// What kind of file an installation fetched.
#[derive(Debug, Clone, Copy, PartialEq, Eq, Structural)]
pub enum ArchiveKind {
    /// An engine build, packed as `.zip`.
    Engine,
    /// A package of export templates, packed as `.tpz`.
    Template,
    /// Anything else: it is fetched and checked, not unpacked.
    Plain,
}

/// The kind of a file, by the ending of its name.
pub open spec fn kind_of(file_name: Seq<char>) -> ArchiveKind {
    if ends_with(file_name, ".zip"@) {
        ArchiveKind::Engine
    } else if ends_with(file_name, ".tpz"@) {
        ArchiveKind::Template
    } else {
        ArchiveKind::Plain
    }
}

/// The kind of a file, by the ending of its name.
pub fn archive_kind(file_name: &str) -> (kind: ArchiveKind)
    ensures
        kind == kind_of(file_name@),
{
    if has_suffix(file_name, ".zip") {
        ArchiveKind::Engine
    } else if has_suffix(file_name, ".tpz") {
        ArchiveKind::Template
    } else {
        ArchiveKind::Plain
    }
}

/// What the caller asked of an installation.
#[derive(Debug, Clone, Copy, PartialEq, Eq, Structural)]
pub struct InstallOptions {
    /// Start over, whatever is cached or installed.
    pub force: bool,
    /// Do not check the file against the checksum list.
    pub skip_check: bool,
    /// Mark the installed build as keeping its data beside itself.
    pub self_contained: bool,
}

/// The stage an installation is in.
#[derive(Debug, Clone, Copy, PartialEq, Eq, Structural)]
pub enum Stage {
    Idle,
    Downloading,
    Verifying,
    Extracting,
    Done,
    Failed(InstallError),
}

/// What happened outside since the last step.
#[derive(Debug, Clone, Copy, PartialEq, Eq, Structural)]
pub enum InstallEvent {
    /// The installation was asked for. `cached` says whether the file, or a
    /// part of it, is in the cache; `installed` whether the place where it
    /// is unpacked exists.
    Requested { cached: bool, installed: bool },
    /// The file is in the cache in full.
    Downloaded,
    /// The transfer broke off.
    TransportFailed,
    /// The digest of the file is the listed one.
    DigestMatched,
    /// The digest of the file is not the listed one.
    DigestDiffered,
    /// The checksum list does not name the file.
    DigestMissing,
    /// The archive is unpacked and flattened.
    Extracted,
    /// The archive could not be unpacked.
    ArchiveBroken,
}

/// What is to be done outside before the next step.
#[derive(Debug, Clone, Copy, PartialEq, Eq, Structural)]
pub enum InstallAction {
    /// Nothing: the installation has ended, or the event meant nothing.
    Nothing,
    /// Fetch the file, taking up a partial file where there is one.
    /// `discard` says to delete what is cached first.
    Download { discard: bool },
    /// Fetch the checksum list where it is not cached, and check the file.
    Verify,
    /// Unpack the file and flatten what comes out. `replace` says to
    /// remove what is installed in its place first.
    Extract { kind: ArchiveKind, replace: bool },
    /// Delete the file from the cache.
    RemoveArtifact,
    /// Create the empty marker file inside the installed build.
    MarkSelfContained,
}

/// One installation on its way through the stages.
#[derive(Debug, Clone, Copy, PartialEq, Eq, Structural)]
pub struct Installation {
    pub stage: Stage,
    pub options: InstallOptions,
    pub kind: ArchiveKind,
    /// Whether the place where the file is unpacked existed at the start.
    pub replace: bool,
}

impl Installation {
    /// After the file is known to be good: unpack it, or end where there is
    /// nothing to unpack.
    pub open spec fn unpack(self) -> (Installation, InstallAction) {
        match self.kind {
            ArchiveKind::Plain => (
                Installation { stage: Stage::Done, ..self },
                InstallAction::Nothing,
            ),
            kind => (
                Installation { stage: Stage::Extracting, ..self },
                InstallAction::Extract { kind, replace: self.replace },
            ),
        }
    }

    /// The installation after an event, and what is to be done next. An
    /// event that the stage does not expect changes nothing.
    pub open spec fn next(self, event: InstallEvent) -> (Installation, InstallAction) {
        match (self.stage, event) {
            (Stage::Idle, InstallEvent::Requested { cached, installed }) => if installed
                && !self.options.force {
                (Installation { stage: Stage::Done, ..self }, InstallAction::Nothing)
            } else {
                (
                    Installation { stage: Stage::Downloading, replace: installed, ..self },
                    InstallAction::Download { discard: self.options.force && cached },
                )
            },
            (Stage::Downloading, InstallEvent::Downloaded) => if self.options.skip_check {
                self.unpack()
            } else {
                (Installation { stage: Stage::Verifying, ..self }, InstallAction::Verify)
            },
            (Stage::Downloading, InstallEvent::TransportFailed) => (
                Installation { stage: Stage::Failed(InstallError::DownloadFailed), ..self },
                InstallAction::Nothing,
            ),
            (Stage::Verifying, InstallEvent::DigestMatched) => self.unpack(),
            (Stage::Verifying, InstallEvent::DigestDiffered) => (
                Installation { stage: Stage::Failed(InstallError::ChecksumMismatch), ..self },
                InstallAction::RemoveArtifact,
            ),
            (Stage::Verifying, InstallEvent::DigestMissing) => (
                Installation { stage: Stage::Failed(InstallError::IntegrityDataMissing), ..self },
                InstallAction::RemoveArtifact,
            ),
            (Stage::Extracting, InstallEvent::Extracted) => (
                Installation { stage: Stage::Done, ..self },
                if self.options.self_contained && self.kind == ArchiveKind::Engine {
                    InstallAction::MarkSelfContained
                } else {
                    InstallAction::Nothing
                },
            ),
            (Stage::Extracting, InstallEvent::ArchiveBroken) => (
                Installation { stage: Stage::Failed(InstallError::ExtractFailed), ..self },
                InstallAction::Nothing,
            ),
            _ => (self, InstallAction::Nothing),
        }
    }

    /// An installation that was not asked for yet.
    pub fn new(options: InstallOptions, kind: ArchiveKind) -> (install: Self)
        ensures
            install == (Installation { stage: Stage::Idle, options, kind, replace: false }),
    {
        Installation { stage: Stage::Idle, options, kind, replace: false }
    }

    /// Takes in an event and says what is to be done next.
    pub fn step(&mut self, event: InstallEvent) -> (action: InstallAction)
        ensures
            (*final(self), action) == old(self).next(event),
    {
        let (after, action) = self.advance(event);
        *self = after;
        action
    }

    /// The installation after an event, and what is to be done next.
    pub fn advance(&self, event: InstallEvent) -> (out: (Installation, InstallAction))
        ensures
            out == self.next(event),
    {
        let stay = *self;
        match (self.stage, event) {
            (Stage::Idle, InstallEvent::Requested { cached, installed }) => {
                if installed && !self.options.force {
                    (Installation { stage: Stage::Done, ..stay }, InstallAction::Nothing)
                } else {
                    (
                        Installation { stage: Stage::Downloading, replace: installed, ..stay },
                        InstallAction::Download { discard: self.options.force && cached },
                    )
                }
            },
            (Stage::Downloading, InstallEvent::Downloaded) => {
                if self.options.skip_check {
                    self.unpacking()
                } else {
                    (Installation { stage: Stage::Verifying, ..stay }, InstallAction::Verify)
                }
            },
            (Stage::Downloading, InstallEvent::TransportFailed) => (
                Installation { stage: Stage::Failed(InstallError::DownloadFailed), ..stay },
                InstallAction::Nothing,
            ),
            (Stage::Verifying, InstallEvent::DigestMatched) => self.unpacking(),
            (Stage::Verifying, InstallEvent::DigestDiffered) => (
                Installation { stage: Stage::Failed(InstallError::ChecksumMismatch), ..stay },
                InstallAction::RemoveArtifact,
            ),
            (Stage::Verifying, InstallEvent::DigestMissing) => (
                Installation { stage: Stage::Failed(InstallError::IntegrityDataMissing), ..stay },
                InstallAction::RemoveArtifact,
            ),
            (Stage::Extracting, InstallEvent::Extracted) => {
                let mark = self.options.self_contained && match self.kind {
                    ArchiveKind::Engine => true,
                    _ => false,
                };
                (
                    Installation { stage: Stage::Done, ..stay },
                    if mark {
                        InstallAction::MarkSelfContained
                    } else {
                        InstallAction::Nothing
                    },
                )
            },
            (Stage::Extracting, InstallEvent::ArchiveBroken) => (
                Installation { stage: Stage::Failed(InstallError::ExtractFailed), ..stay },
                InstallAction::Nothing,
            ),
            _ => (stay, InstallAction::Nothing),
        }
    }

    /// After the file is known to be good: unpack it, or end.
    fn unpacking(&self) -> (out: (Installation, InstallAction))
        ensures
            out == self.unpack(),
    {
        let stay = *self;
        match self.kind {
            ArchiveKind::Plain => (
                Installation { stage: Stage::Done, ..stay },
                InstallAction::Nothing,
            ),
            kind => (
                Installation { stage: Stage::Extracting, ..stay },
                InstallAction::Extract { kind, replace: self.replace },
            ),
        }
    }

    /// Whether the installation has ended, well or badly.
    pub open spec fn ended(self) -> bool {
        self.stage is Done || self.stage is Failed
    }

    /// Whether the installation has ended, well or badly.
    pub fn is_ended(&self) -> (ended: bool)
        ensures
            ended == self.ended(),
    {
        match self.stage {
            Stage::Done => true,
            Stage::Failed(_) => true,
            _ => false,
        }
    }
}

/// The event that the check of a file against the checksum list amounts to.
pub fn digest_event(checked: Result<(), InstallError>) -> (event: InstallEvent)
    ensures
        event == match checked {
            Ok(_) => InstallEvent::DigestMatched,
            Err(InstallError::IntegrityDataMissing) => InstallEvent::DigestMissing,
            Err(_) => InstallEvent::DigestDiffered,
        },
{
    match checked {
        Ok(_) => InstallEvent::DigestMatched,
        Err(InstallError::IntegrityDataMissing) => InstallEvent::DigestMissing,
        Err(_) => InstallEvent::DigestDiffered,
    }
}

/// An installation that finds its version in place, and is not forced,
/// ends well at once and asks for nothing: no transfer and no unpacking.
pub proof fn lemma_install_is_idempotent(options: InstallOptions, kind: ArchiveKind, cached: bool)
    requires
        !options.force,
    ensures
        ({
            let start = Installation { stage: Stage::Idle, options, kind, replace: false };
            let (after, action) = start.next(
                InstallEvent::Requested { cached, installed: true },
            );
            after.stage == Stage::Done && action == InstallAction::Nothing
        }),
{
}

/// An installation that has ended stays as it is, whatever happens.
pub proof fn lemma_ended_is_final(install: Installation, event: InstallEvent)
    requires
        install.ended(),
    ensures
        install.next(event) == (install, InstallAction::Nothing),
{
}

/// A file whose digest is not the listed one is deleted and the installation
/// fails with a checksum mismatch. The next installation, finding nothing
/// in the cache, fetches the whole file afresh.
pub proof fn lemma_checksum_gate(install: Installation, installed: bool, total: u64)
    requires
        install.stage == Stage::Verifying,
        total > 0,
    ensures
        ({
            let (failed, cleanup) = install.next(InstallEvent::DigestDiffered);
            let again = Installation { stage: Stage::Idle, ..install };
            let (retry, fetch) = again.next(InstallEvent::Requested { cached: false, installed });
            &&& failed.stage == Stage::Failed(InstallError::ChecksumMismatch)
            &&& cleanup == InstallAction::RemoveArtifact
            &&& installed && !install.options.force || (retry.stage == Stage::Downloading && fetch
                == InstallAction::Download { discard: false })
            &&& planned(0, total) == DownloadPlan::Fresh
        }),
{
}

/// A transfer that broke off leaves the cache alone, so that the next
/// attempt can take up what arrived.
pub proof fn lemma_transport_failure_keeps_partial(install: Installation, local_len: u64, total: u64)
    requires
        install.stage == Stage::Downloading,
        0 < local_len < total,
    ensures
        install.next(InstallEvent::TransportFailed).1 == InstallAction::Nothing,
        install.next(InstallEvent::TransportFailed).0.stage == Stage::Failed(
            InstallError::DownloadFailed,
        ),
        planned(local_len, total) == (DownloadPlan::Resume { from: local_len }),
{
}

} // verus!
