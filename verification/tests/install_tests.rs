use gdem::handler::DocumentHandler;
use gdem::install::{
    archive_kind, check_sha512, digest_event, extract_engine, extract_template, find_download_url,
    find_sums_url, get_remote_sha512, query_sum_file_url, query_url, verify_digest, ArchiveKind,
    InstallAction, InstallError, InstallEvent, InstallOptions, Installation, Stage,
};
use gdem::json::{Json, Record};
use gdem::tags::{Architecture, OS};
use gdem::tool::ManifestError;

const ABC_SHA512: &str = "ddaf35a193617abacc417349ae20413112e6fa4e89a97ea20a9eeee64b55d39a2192992a274fc1a836ba3c23a3feebbd454d4423643ce80e2a9ac94fa54ca49f";

fn text(s: &str) -> Json {
    Json::Text(s.to_string())
}

fn record(members: Vec<(&str, Json)>) -> Json {
    let mut rec = Record::new();
    for (name, value) in members {
        rec.insert(name.to_string(), value);
    }
    Json::Object(rec)
}

fn asset(name: &str) -> Json {
    record(vec![
        ("name", text(name)),
        ("size", Json::Integer(10)),
        ("updated_at", text("2025-03-26T10:11:12Z")),
        ("browser_download_url", text(&format!("https://example.org/{}", name))),
    ])
}

fn manifest() -> Json {
    Json::Array(vec![record(vec![
        ("tag_name", text("4.4.1-stable")),
        (
            "assets",
            Json::Array(vec![
                asset("Godot_v4.4.1-stable_win64.exe.zip"),
                asset("Godot_v4.4.1-stable_mono_win64.zip"),
                asset("Godot_v4.4.1-stable_linux.x86_64.zip"),
                asset("SHA512-SUMS.txt"),
            ]),
        ),
    ])])
}

fn options(force: bool, skip_check: bool, self_contained: bool) -> InstallOptions {
    InstallOptions { force, skip_check, self_contained }
}

fn requested(cached: bool, installed: bool) -> InstallEvent {
    InstallEvent::Requested { cached, installed }
}

#[test]
fn download_url_of_the_one_matching_asset() {
    let assets = DocumentHandler::new(vec![asset("a_win64.zip"), asset("b_win64.zip")]);
    assert_eq!(
        find_download_url(&assets, "a_win64.zip"),
        Ok("https://example.org/a_win64.zip".to_string())
    );
    assert_eq!(find_download_url(&assets, "c.zip"), Err(ManifestError::AssetNotFound));
    assert_eq!(find_download_url(&assets, "win64"), Err(ManifestError::AmbiguousAsset));
    let no_url = DocumentHandler::new(vec![record(vec![("name", text("a.zip"))])]);
    assert_eq!(find_download_url(&no_url, "a.zip"), Err(ManifestError::Malformed));
}

#[test]
fn sums_url_of_the_first_checksum_list() {
    let assets = DocumentHandler::new(vec![
        asset("a.zip"),
        asset("SHA512-SUMS.txt"),
        asset("SHA512-SUMS.txt.sig"),
    ]);
    assert_eq!(find_sums_url(&assets), Ok("https://example.org/SHA512-SUMS.txt".to_string()));
    let none = DocumentHandler::new(vec![asset("a.zip")]);
    assert_eq!(find_sums_url(&none), Err(ManifestError::AssetNotFound));
}

#[test]
fn urls_from_the_manifest() {
    let m = manifest();
    assert_eq!(
        query_url("Godot_v4.4.1-stable_win64.exe.zip", Some(&m), OS::Windows, Architecture::AMD64),
        Ok("https://example.org/Godot_v4.4.1-stable_win64.exe.zip".to_string())
    );
    assert_eq!(
        query_url("Godot_v4.4.1-stable", Some(&m), OS::Windows, Architecture::AMD64),
        Err(ManifestError::AmbiguousAsset)
    );
    assert_eq!(
        query_url(
            "Godot_v4.4.1-stable_linux.x86_64.zip",
            Some(&m),
            OS::Windows,
            Architecture::AMD64
        ),
        Err(ManifestError::AssetNotFound)
    );
    assert_eq!(
        query_url("Godot_v9.9-stable_win64.exe.zip", Some(&m), OS::Windows, Architecture::AMD64),
        Err(ManifestError::AssetNotFound)
    );
    assert_eq!(
        query_url("Godot", Some(&m), OS::Windows, Architecture::AMD64),
        Err(ManifestError::AssetNotFound)
    );
    assert_eq!(
        query_url("Godot_v4.4.1-stable_win64.exe.zip", None, OS::Windows, Architecture::AMD64),
        Err(ManifestError::ManifestMissing)
    );
    assert_eq!(
        query_sum_file_url(
            "Godot_v4.4.1-stable_win64.exe.zip",
            Some(&m),
            OS::Windows,
            Architecture::AMD64
        ),
        Ok("https://example.org/SHA512-SUMS.txt".to_string())
    );
}

#[test]
fn digest_is_what_stands_before_the_name_on_its_line() {
    let list = "aaaa  other.zip\nbbbb  Godot_v4.4.1-stable_win64.exe.zip\r\ncccc  Godot_v4.4.1-stable_win64.exe.zip\n";
    assert_eq!(
        get_remote_sha512(list, "Godot_v4.4.1-stable_win64.exe.zip"),
        Some("bbbb".to_string())
    );
    assert_eq!(get_remote_sha512(list, "other.zip"), Some("aaaa".to_string()));
    assert_eq!(get_remote_sha512(list, "missing.zip"), None);
    assert_eq!(get_remote_sha512("", "a.zip"), None);
}

#[test]
fn digest_is_trimmed_of_white_space() {
    assert_eq!(get_remote_sha512(" \tabcd \t*a.zip", "a.zip"), Some("abcd \t*".to_string()));
    assert_eq!(get_remote_sha512("\u{a0}abcd\u{2003} a.zip", "a.zip"), Some("abcd".to_string()));
    assert_eq!(get_remote_sha512("a.zip", "a.zip"), Some("".to_string()));
    assert_eq!(get_remote_sha512("   a.zip  trailing", "a.zip"), Some("".to_string()));
}

#[test]
fn verdict_of_the_check() {
    let list = "1234  a.zip\n";
    assert_eq!(verify_digest(list, "a.zip", "1234"), Ok(()));
    assert_eq!(verify_digest(list, "a.zip", "1235"), Err(InstallError::ChecksumMismatch));
    assert_eq!(verify_digest(list, "a.zip", "1234 "), Err(InstallError::ChecksumMismatch));
    assert_eq!(verify_digest(list, "b.zip", "1234"), Err(InstallError::IntegrityDataMissing));
}

#[test]
fn content_is_checked_by_its_sha512() {
    let list = format!("{}  abc.zip\n{}  other.zip\n", ABC_SHA512, "00");
    assert_eq!(check_sha512(&list, "abc.zip", b"abc"), Ok(()));
    assert_eq!(check_sha512(&list, "abc.zip", b"abd"), Err(InstallError::ChecksumMismatch));
    assert_eq!(check_sha512(&list, "other.zip", b"abc"), Err(InstallError::ChecksumMismatch));
    assert_eq!(check_sha512(&list, "none.zip", b"abc"), Err(InstallError::IntegrityDataMissing));
    let upper = format!("{}  abc.zip\n", ABC_SHA512.to_uppercase());
    assert_eq!(check_sha512(&upper, "abc.zip", b"abc"), Err(InstallError::ChecksumMismatch));
}

#[test]
fn an_engine_is_unpacked_under_major_version_and_name() {
    let target = extract_engine("Godot_v4.4.1-stable_win64.exe.zip").unwrap();
    assert_eq!(target.major, "4.x");
    assert_eq!(target.version, "4.4.1");
    assert_eq!(target.name, "Godot_v4.4.1-stable_win64");
    assert_eq!(extract_engine("Godot.zip"), None);
}

#[test]
fn a_template_package_is_unpacked_under_its_dotted_name() {
    assert_eq!(
        extract_template("Godot_v3.6.1-stable_mono_export_templates.tpz"),
        "3.6.1.stable.mono"
    );
    assert_eq!(extract_template("Godot_v4.4.1-stable_export_templates.tpz"), "4.4.1.stable");
}

#[test]
fn kind_by_ending() {
    assert_eq!(archive_kind("Godot_v4.4.1-stable_win64.exe.zip"), ArchiveKind::Engine);
    assert_eq!(archive_kind("Godot_v4.4.1-stable_export_templates.tpz"), ArchiveKind::Template);
    assert_eq!(archive_kind("godot-lib.aar"), ArchiveKind::Plain);
    assert_eq!(archive_kind("a.zip.txt"), ArchiveKind::Plain);
}

#[test]
fn a_plain_installation_runs_through_all_stages() {
    let mut run = Installation::new(options(false, false, false), ArchiveKind::Engine);
    assert_eq!(run.stage, Stage::Idle);
    assert!(!run.is_ended());
    assert_eq!(run.step(requested(false, false)), InstallAction::Download { discard: false });
    assert_eq!(run.stage, Stage::Downloading);
    assert_eq!(run.step(InstallEvent::Downloaded), InstallAction::Verify);
    assert_eq!(run.stage, Stage::Verifying);
    assert_eq!(
        run.step(InstallEvent::DigestMatched),
        InstallAction::Extract { kind: ArchiveKind::Engine, replace: false }
    );
    assert_eq!(run.stage, Stage::Extracting);
    assert_eq!(run.step(InstallEvent::Extracted), InstallAction::Nothing);
    assert_eq!(run.stage, Stage::Done);
    assert!(run.is_ended());
}

#[test]
fn installing_what_is_installed_does_nothing_without_force() {
    for cached in [false, true] {
        let mut run = Installation::new(options(false, false, false), ArchiveKind::Engine);
        assert_eq!(run.step(requested(cached, true)), InstallAction::Nothing);
        assert_eq!(run.stage, Stage::Done);
        assert!(run.is_ended());
    }
}

#[test]
fn force_starts_over() {
    let mut run = Installation::new(options(true, false, false), ArchiveKind::Engine);
    assert_eq!(run.step(requested(true, true)), InstallAction::Download { discard: true });
    assert_eq!(run.step(InstallEvent::Downloaded), InstallAction::Verify);
    assert_eq!(
        run.step(InstallEvent::DigestMatched),
        InstallAction::Extract { kind: ArchiveKind::Engine, replace: true }
    );
    let mut run = Installation::new(options(true, false, false), ArchiveKind::Engine);
    assert_eq!(run.step(requested(false, false)), InstallAction::Download { discard: false });
}

#[test]
fn a_cached_part_is_taken_up_without_force() {
    let mut run = Installation::new(options(false, false, false), ArchiveKind::Template);
    assert_eq!(run.step(requested(true, false)), InstallAction::Download { discard: false });
}

#[test]
fn a_differing_digest_fails_removes_the_file_and_never_unpacks() {
    let mut run = Installation::new(options(false, false, true), ArchiveKind::Engine);
    run.step(requested(false, false));
    run.step(InstallEvent::Downloaded);
    assert_eq!(run.step(InstallEvent::DigestDiffered), InstallAction::RemoveArtifact);
    assert_eq!(run.stage, Stage::Failed(InstallError::ChecksumMismatch));
    assert!(run.is_ended());
    for event in [
        InstallEvent::Downloaded,
        InstallEvent::DigestMatched,
        InstallEvent::Extracted,
        requested(true, false),
    ] {
        assert_eq!(run.step(event), InstallAction::Nothing);
        assert_eq!(run.stage, Stage::Failed(InstallError::ChecksumMismatch));
    }
}

#[test]
fn a_file_that_the_list_does_not_name_fails_too() {
    let mut run = Installation::new(options(false, false, false), ArchiveKind::Engine);
    run.step(requested(false, false));
    run.step(InstallEvent::Downloaded);
    assert_eq!(run.step(InstallEvent::DigestMissing), InstallAction::RemoveArtifact);
    assert_eq!(run.stage, Stage::Failed(InstallError::IntegrityDataMissing));
}

#[test]
fn skipping_the_check_goes_straight_to_unpacking() {
    let mut run = Installation::new(options(false, true, false), ArchiveKind::Template);
    run.step(requested(false, false));
    assert_eq!(
        run.step(InstallEvent::Downloaded),
        InstallAction::Extract { kind: ArchiveKind::Template, replace: false }
    );
    assert_eq!(run.stage, Stage::Extracting);
}

#[test]
fn a_plain_file_is_not_unpacked() {
    let mut run = Installation::new(options(false, false, false), ArchiveKind::Plain);
    run.step(requested(false, false));
    run.step(InstallEvent::Downloaded);
    assert_eq!(run.step(InstallEvent::DigestMatched), InstallAction::Nothing);
    assert_eq!(run.stage, Stage::Done);
}

#[test]
fn a_broken_transfer_fails_and_keeps_what_arrived() {
    let mut run = Installation::new(options(false, false, false), ArchiveKind::Engine);
    run.step(requested(false, false));
    assert_eq!(run.step(InstallEvent::TransportFailed), InstallAction::Nothing);
    assert_eq!(run.stage, Stage::Failed(InstallError::DownloadFailed));
}

#[test]
fn a_broken_archive_fails() {
    let mut run = Installation::new(options(false, true, false), ArchiveKind::Engine);
    run.step(requested(false, false));
    run.step(InstallEvent::Downloaded);
    assert_eq!(run.step(InstallEvent::ArchiveBroken), InstallAction::Nothing);
    assert_eq!(run.stage, Stage::Failed(InstallError::ExtractFailed));
}

#[test]
fn only_an_engine_is_marked_self_contained() {
    let mut run = Installation::new(options(false, true, true), ArchiveKind::Engine);
    run.step(requested(false, false));
    run.step(InstallEvent::Downloaded);
    assert_eq!(run.step(InstallEvent::Extracted), InstallAction::MarkSelfContained);
    let mut run = Installation::new(options(false, true, true), ArchiveKind::Template);
    run.step(requested(false, false));
    run.step(InstallEvent::Downloaded);
    assert_eq!(run.step(InstallEvent::Extracted), InstallAction::Nothing);
}

#[test]
fn an_event_out_of_turn_changes_nothing() {
    let run = Installation::new(options(false, false, false), ArchiveKind::Engine);
    let (after, action) = run.advance(InstallEvent::Extracted);
    assert_eq!(after, run);
    assert_eq!(action, InstallAction::Nothing);
}

#[test]
fn the_check_becomes_an_event() {
    assert_eq!(digest_event(Ok(())), InstallEvent::DigestMatched);
    assert_eq!(digest_event(Err(InstallError::ChecksumMismatch)), InstallEvent::DigestDiffered);
    assert_eq!(digest_event(Err(InstallError::IntegrityDataMissing)), InstallEvent::DigestMissing);
}

#[test]
fn install_errors_in_words() {
    assert_eq!(InstallError::DownloadFailed.message(), "Download failed");
    assert_eq!(InstallError::ChecksumMismatch.message(), "Checksum failed, file removed");
    assert_eq!(InstallError::IntegrityDataMissing.message(), "SHA512 not found in checksum list");
    assert_eq!(InstallError::ExtractFailed.message(), "Extracting failed");
}
