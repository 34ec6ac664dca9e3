use gdem::handler::DocumentHandler;
use gdem::json::{Json, Record};
use gdem::tags::{Architecture, OS};
use gdem::tool::{
    assets_of_release, assets_of_version, extract_version, format_engine_name, get_levels_dir,
    get_major_from_tag, levels_of, load_remote_engine_assets, load_remote_engines_handler,
    ManifestError,
};

fn text(s: &str) -> Json {
    Json::Text(s.to_string())
}

fn record(members: Vec<(&str, Json)>) -> Json {
    let mut rec = Record::new();
    for (name, value) in members {
        rec.insert(name.to_string(), value);
    }
    Json::Object(rec)
}

fn asset(name: &str, size: i128) -> Json {
    record(vec![
        ("id", Json::Integer(7)),
        ("name", text(name)),
        ("size", Json::Integer(size)),
        ("updated_at", text("2025-03-26T10:11:12Z")),
        (
            "browser_download_url",
            text(&format!("https://github.com/godotengine/godot/releases/download/x/{}", name)),
        ),
    ])
}

fn kept_asset(name: &str, size: i128, updated_at: &str) -> Json {
    record(vec![
        ("name", text(name)),
        ("size", Json::Integer(size)),
        ("updated_at", text(updated_at)),
        (
            "browser_download_url",
            text(&format!("https://github.com/godotengine/godot/releases/download/x/{}", name)),
        ),
    ])
}

fn release(tag: &str, assets: Vec<Json>) -> Json {
    record(vec![
        ("tag_name", text(tag)),
        ("published_at", text("2025-03-26T00:00:00Z")),
        ("assets", Json::Array(assets)),
    ])
}

fn manifest() -> Json {
    Json::Array(vec![
        release(
            "4.4.1-stable",
            vec![
                asset("Godot_v4.4.1-stable_win64.exe.zip", 100),
                asset("Godot_v4.4.1-stable_linux.x86_64.zip", 200),
                asset("Godot_v4.4.1-stable_export_templates.tpz", 300),
                asset("SHA512-SUMS.txt", 40),
                asset("Godot_v4.4.1-stable_web_editor.apk", 50),
            ],
        ),
        release("4.4-stable", vec![asset("Godot_v4.4-stable_win64.exe.zip", 90)]),
        release("3.6-stable", vec![asset("Godot_v3.6-stable_win32.exe.zip", 80)]),
    ])
}

#[test]
fn engine_name_drops_archive_and_executable_endings() {
    assert_eq!(
        format_engine_name("Godot_v4.4.1-stable_win64.exe.zip"),
        "Godot_v4.4.1-stable_win64"
    );
    assert_eq!(
        format_engine_name("Godot_v4.4.1-stable_linux.x86_64.zip"),
        "Godot_v4.4.1-stable_linux.x86_64"
    );
    assert_eq!(format_engine_name("plain"), "plain");
}

#[test]
fn version_is_the_first_number_pattern() {
    assert_eq!(
        extract_version("Godot_v4.4.1-stable_win64.exe.zip"),
        Some("4.4.1".to_string())
    );
    assert_eq!(extract_version("Godot_v4.4-stable_win64.exe.zip"), Some("4.4".to_string()));
    assert_eq!(extract_version("Godot_v3.6.1.2-stable"), Some("3.6.1".to_string()));
    assert_eq!(extract_version("4"), None);
    assert_eq!(extract_version("no version here"), None);
    assert_eq!(extract_version("a1.b2 10.20x 3.4"), Some("10.20".to_string()));
}

#[test]
fn major_bucket_is_the_first_component_and_x() {
    assert_eq!(get_major_from_tag("3.5.1-stable"), "3.x");
    assert_eq!(get_major_from_tag("4.4.1"), "4.x");
    assert_eq!(get_major_from_tag("10.0"), "10.x");
    assert_eq!(get_major_from_tag("nodots"), "nodots.x");
    assert_eq!(get_major_from_tag(""), ".x");
}

#[test]
fn levels_of_an_engine_build() {
    let levels = get_levels_dir("Godot_v4.4.1-stable_win64.exe.zip").unwrap();
    assert_eq!(levels.major, "4.x");
    assert_eq!(levels.version, "4.4.1");
    assert!(get_levels_dir("Godot").is_none());
    let levels = levels_of("3.6".to_string());
    assert_eq!(levels.major, "3.x");
    assert_eq!(levels.version, "3.6");
}

#[test]
fn only_the_matching_platform_build_is_selected() {
    let m = manifest();
    let loaded = load_remote_engines_handler(
        Some(&m),
        &["tag_name", "assets"],
        OS::Windows,
        Architecture::AMD64,
    )
    .unwrap();
    assert_eq!(loaded.document.len(), 3);
    let first = loaded.document[0].as_object().unwrap();
    assert_eq!(first.len(), 2);
    assert_eq!(first.get("tag_name"), Some(&text("4.4.1-stable")));
    let assets = first.get("assets").unwrap().as_array().unwrap();
    assert_eq!(
        assets,
        &vec![
            kept_asset("Godot_v4.4.1-stable_win64.exe.zip", 100, "2025-03-26T10:11:12Z"),
            kept_asset("Godot_v4.4.1-stable_export_templates.tpz", 300, "2025-03-26T10:11:12Z"),
            kept_asset("SHA512-SUMS.txt", 40, "2025-03-26T10:11:12Z"),
        ]
    );
}

#[test]
fn the_other_platform_sees_the_other_build() {
    let m = manifest();
    let loaded =
        load_remote_engines_handler(Some(&m), &["assets"], OS::Linux, Architecture::AMD64).unwrap();
    let first = loaded.document[0].as_object().unwrap();
    assert_eq!(first.len(), 1);
    let assets = first.get("assets").unwrap().as_array().unwrap();
    let names: Vec<&str> = assets
        .iter()
        .map(|a| a.as_object().unwrap().get("name").unwrap().as_str().unwrap())
        .collect();
    assert_eq!(
        names,
        vec![
            "Godot_v4.4.1-stable_linux.x86_64.zip",
            "Godot_v4.4.1-stable_export_templates.tpz",
            "SHA512-SUMS.txt",
        ]
    );
    let second = loaded.document[1].as_object().unwrap();
    assert_eq!(second.get("assets"), Some(&Json::Array(vec![])));
}

#[test]
fn a_missing_manifest_is_reported() {
    assert_eq!(
        load_remote_engines_handler(None, &["tag_name"], OS::Windows, Architecture::AMD64).err(),
        Some(ManifestError::ManifestMissing)
    );
}

#[test]
fn a_manifest_of_the_wrong_shape_is_malformed() {
    let not_array = record(vec![("tag_name", text("4.4"))]);
    assert_eq!(
        load_remote_engines_handler(Some(&not_array), &["tag_name"], OS::Windows, Architecture::AMD64)
            .err(),
        Some(ManifestError::Malformed)
    );
    let stray = Json::Array(vec![text("4.4")]);
    assert_eq!(
        load_remote_engines_handler(Some(&stray), &["tag_name"], OS::Windows, Architecture::AMD64)
            .err(),
        Some(ManifestError::Malformed)
    );
    let assets_no_array = Json::Array(vec![record(vec![("assets", text("none"))])]);
    assert_eq!(
        load_remote_engines_handler(
            Some(&assets_no_array),
            &["tag_name"],
            OS::Windows,
            Architecture::AMD64
        )
        .err(),
        Some(ManifestError::Malformed)
    );
    let nameless = Json::Array(vec![release("4.4", vec![record(vec![("size", Json::Integer(1))])])]);
    assert_eq!(
        load_remote_engines_handler(Some(&nameless), &["tag_name"], OS::Windows, Architecture::AMD64)
            .err(),
        Some(ManifestError::Malformed)
    );
}

#[test]
fn a_release_without_assets_is_only_cut_down() {
    let m = Json::Array(vec![record(vec![("tag_name", text("4.4")), ("draft", Json::Bool(false))])]);
    let loaded =
        load_remote_engines_handler(Some(&m), &["tag_name"], OS::Windows, Architecture::AMD64)
            .unwrap();
    assert_eq!(loaded.document, vec![record(vec![("tag_name", text("4.4"))])]);
}

#[test]
fn a_selector_matches_by_prefix_in_manifest_order() {
    let m = manifest();
    let assets = assets_of_version("4.4", Some(&m), OS::Windows, Architecture::AMD64).unwrap();
    assert_eq!(
        assets.document,
        vec![
            kept_asset("Godot_v4.4.1-stable_win64.exe.zip", 100, "2025-03-26"),
            kept_asset("Godot_v4.4.1-stable_export_templates.tpz", 300, "2025-03-26"),
            kept_asset("SHA512-SUMS.txt", 40, "2025-03-26"),
        ]
    );
    let assets = assets_of_version("4.4-", Some(&m), OS::Windows, Architecture::AMD64).unwrap();
    assert_eq!(
        assets.document,
        vec![kept_asset("Godot_v4.4-stable_win64.exe.zip", 90, "2025-03-26")]
    );
    let assets = assets_of_version("3", Some(&m), OS::Windows, Architecture::AMD32).unwrap();
    assert_eq!(
        assets.document,
        vec![kept_asset("Godot_v3.6-stable_win32.exe.zip", 80, "2025-03-26")]
    );
}

#[test]
fn an_unknown_version_is_not_found() {
    let m = manifest();
    assert_eq!(
        assets_of_version("5.0", Some(&m), OS::Windows, Architecture::AMD64).err(),
        Some(ManifestError::AssetNotFound)
    );
    assert_eq!(
        assets_of_version("4.4", None, OS::Windows, Architecture::AMD64).err(),
        Some(ManifestError::ManifestMissing)
    );
}

#[test]
fn assets_of_a_release_need_tags_sizes_and_dates() {
    let untagged = DocumentHandler::new(vec![record(vec![("assets", Json::Array(vec![]))])]);
    assert_eq!(assets_of_release(&untagged, "4").err(), Some(ManifestError::Malformed));
    let no_assets = DocumentHandler::new(vec![record(vec![("tag_name", text("4.4"))])]);
    assert_eq!(assets_of_release(&no_assets, "4").err(), Some(ManifestError::Malformed));
    let sizeless = DocumentHandler::new(vec![record(vec![
        ("tag_name", text("4.4")),
        (
            "assets",
            Json::Array(vec![record(vec![("name", text("a.zip")), ("updated_at", text("2025"))])]),
        ),
    ])]);
    assert_eq!(assets_of_release(&sizeless, "4").err(), Some(ManifestError::Malformed));
    let negative = DocumentHandler::new(vec![release("4.4", vec![asset("a.zip", -1)])]);
    assert_eq!(assets_of_release(&negative, "4").err(), Some(ManifestError::Malformed));
    let fine = DocumentHandler::new(vec![release("4.4", vec![])]);
    assert_eq!(assets_of_release(&fine, "4").unwrap().document, Vec::<Json>::new());
}

#[test]
fn assets_are_found_by_the_version_in_a_file_name() {
    let m = manifest();
    let assets = load_remote_engine_assets(
        "Godot_v3.6-stable_win32.exe.zip",
        Some(&m),
        OS::Windows,
        Architecture::AMD32,
    )
    .unwrap();
    assert_eq!(
        assets.document,
        vec![kept_asset("Godot_v3.6-stable_win32.exe.zip", 80, "2025-03-26")]
    );
    assert_eq!(
        load_remote_engine_assets("Godot", Some(&m), OS::Windows, Architecture::AMD64).err(),
        Some(ManifestError::AssetNotFound)
    );
}

#[test]
fn manifest_errors_in_words() {
    assert_eq!(ManifestError::ManifestMissing.message(), "Release manifest is missing, sync first");
    assert_eq!(ManifestError::Malformed.message(), "Release manifest is malformed");
    assert_eq!(ManifestError::AssetNotFound.message(), "Asset not found");
    assert_eq!(ManifestError::AmbiguousAsset.message(), "More than one asset matches");
}

#[test]
fn both_builds_are_supported_files_but_one_fits_the_platform() {
    let windows = "Godot_v4.4.1-stable_win64.exe.zip";
    let linux = "Godot_v4.4.1-stable_linux.x86_64.zip";
    assert!(gdem::tags::is_support_file(windows));
    assert!(gdem::tags::is_support_file(linux));
    let m = Json::Array(vec![release("4.4.1-stable", vec![asset(windows, 1), asset(linux, 2)])]);
    let loaded =
        load_remote_engines_handler(Some(&m), &["assets"], OS::Windows, Architecture::AMD64)
            .unwrap();
    let assets = loaded.document[0].as_object().unwrap().get("assets").unwrap().as_array().unwrap();
    assert_eq!(assets, &vec![kept_asset(windows, 1, "2025-03-26T10:11:12Z")]);
}
