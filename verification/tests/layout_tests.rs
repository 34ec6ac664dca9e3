use gdem::install::InstallTarget;
use gdem::layout::{
    active_link, cache_dir, cached_file, manifest_file, place_of, sums_file, template_path,
    version_dir,
};
use gdem::tool::levels_of;
use gdem::utils::{range_header, range_of, DownloadPlan};

fn some(s: &str) -> Option<String> {
    Some(s.to_string())
}

#[test]
fn a_version_lies_below_its_major_bucket() {
    assert_eq!(version_dir("/r/home", &levels_of("4.4.1".to_string())), "/r/home/4.x/4.4.1");
    assert_eq!(version_dir("", &levels_of("3.6".to_string())), "/3.x/3.6");
}

#[test]
fn the_cache_is_kept_by_version() {
    let name = "Godot_v4.4.1-stable_win64.exe.zip";
    assert_eq!(cache_dir("/r/cache", name), some("/r/cache/4.x/4.4.1"));
    assert_eq!(
        cached_file("/r/cache", name),
        some("/r/cache/4.x/4.4.1/Godot_v4.4.1-stable_win64.exe.zip")
    );
    assert_eq!(sums_file("/r/cache", name), some("/r/cache/4.x/4.4.1/SHA512-SUMS.txt"));
    assert_eq!(cache_dir("/r/cache", "Godot"), None);
    assert_eq!(cached_file("/r/cache", "Godot"), None);
    assert_eq!(sums_file("/r/cache", "Godot"), None);
}

#[test]
fn checksum_lists_of_two_versions_do_not_mix() {
    let one = sums_file("/c", "Godot_v4.4.1-stable_win64.exe.zip").unwrap();
    let other = sums_file("/c", "Godot_v4.4-stable_win64.exe.zip").unwrap();
    let same = sums_file("/c", "Godot_v4.4.1-stable_linux.x86_64.zip").unwrap();
    assert_ne!(one, other);
    assert_eq!(one, same);
}

#[test]
fn an_installed_build_lies_under_major_version_and_name() {
    let target = InstallTarget {
        major: "4.x".to_string(),
        version: "4.4.1".to_string(),
        name: "Godot_v4.4.1-stable_win64".to_string(),
    };
    assert_eq!(place_of("/r/home", &target), "/r/home/4.x/4.4.1/Godot_v4.4.1-stable_win64");
}

#[test]
fn fixed_places() {
    assert_eq!(
        template_path("/r/data", "Godot_v3.6.1-stable_mono_export_templates.tpz"),
        "/r/data/Godot/export_templates/3.6.1.stable.mono"
    );
    assert_eq!(active_link("/r"), "/r/default");
    assert_eq!(manifest_file("/r/data"), "/r/data/releases.json");
}

#[test]
fn a_resumed_download_asks_for_the_rest() {
    assert_eq!(range_header(400), "bytes=400-");
    assert_eq!(range_header(0), "bytes=0-");
    assert_eq!(range_header(u64::MAX), "bytes=18446744073709551615-");
    assert_eq!(range_of(DownloadPlan::Resume { from: 1234 }), some("bytes=1234-"));
    assert_eq!(range_of(DownloadPlan::Fresh), None);
    assert_eq!(range_of(DownloadPlan::Complete), None);
}
