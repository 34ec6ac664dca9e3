use gdem::handler::DocumentHandler;
use gdem::json::{Json, Record};
use gdem::list::{
    group_remote_engines, list_local_engines, list_remote_engine_assets, list_remote_engines,
    listed_assets, sort_by_major, sort_latest_first, EngineInfo, Entry, Folder,
};
use gdem::tags::{Architecture, OS};
use gdem::tool::ManifestError;

fn text(s: &str) -> Json {
    Json::Text(s.to_string())
}

fn record(members: Vec<(&str, Json)>) -> Json {
    let mut rec = Record::new();
    for (name, value) in members {
        rec.insert(name.to_string(), value);
    }
    Json::Object(rec)
}

fn asset(name: &str, size: i128) -> Json {
    record(vec![
        ("name", text(name)),
        ("size", Json::Integer(size)),
        ("updated_at", text("2025-03-26T10:11:12Z")),
        ("browser_download_url", text("https://example.org/x")),
    ])
}

fn release(tag: &str, assets: Vec<Json>) -> Json {
    record(vec![("tag_name", text(tag)), ("assets", Json::Array(assets))])
}

fn tagged(tag: &str) -> Json {
    record(vec![("tag_name", text(tag))])
}

fn strings(items: &[&str]) -> Vec<String> {
    items.iter().map(|s| s.to_string()).collect()
}

fn info(major: &str, versions: &[&str]) -> EngineInfo {
    EngineInfo { major: major.to_string(), versions: strings(versions) }
}

fn folder(name: &str, is_dir: bool, entries: Vec<Entry>) -> Folder {
    Folder { name: name.to_string(), is_dir, entries }
}

fn dir(name: &str) -> Entry {
    Entry { name: name.to_string(), is_dir: true }
}

fn file(name: &str) -> Entry {
    Entry { name: name.to_string(), is_dir: false }
}

#[test]
fn texts_sort_latest_first() {
    assert_eq!(
        sort_latest_first(strings(&["4.3", "4.4.1", "4.4", "3.6"])),
        strings(&["4.4.1", "4.4", "4.3", "3.6"])
    );
    assert_eq!(sort_latest_first(Vec::new()), Vec::<String>::new());
    assert_eq!(sort_latest_first(strings(&["a", "a"])), strings(&["a", "a"]));
}

#[test]
fn texts_sort_by_characters_not_by_numbers() {
    assert_eq!(sort_latest_first(strings(&["4.10", "4.9", "4.2"])), strings(&["4.9", "4.2", "4.10"]));
}

#[test]
fn buckets_sort_latest_first_and_keep_ties_in_order() {
    let sorted = sort_by_major(vec![
        info("3.x", &["b"]),
        info("4.x", &["first"]),
        info("2.x", &[]),
        info("4.x", &["second"]),
    ]);
    assert_eq!(
        sorted,
        vec![info("4.x", &["first"]), info("4.x", &["second"]), info("3.x", &["b"]), info("2.x", &[])]
    );
}

#[test]
fn installed_versions_by_bucket_latest_first() {
    let home = vec![
        folder("3.x", true, vec![dir("3.5.1"), dir("3.6"), file("notes.txt")]),
        folder("readme.md", false, vec![]),
        folder("empty.x", true, vec![]),
        folder("files_only", true, vec![file("a")]),
        folder("4.x", true, vec![dir("4.3"), dir("4.4.1"), dir("4.4")]),
    ];
    assert_eq!(
        list_local_engines(&home),
        vec![info("4.x", &["4.4.1", "4.4", "4.3"]), info("3.x", &["3.6", "3.5.1"])]
    );
}

#[test]
fn nothing_installed_gives_an_empty_list() {
    assert_eq!(list_local_engines(&Vec::new()), Vec::<EngineInfo>::new());
    assert_eq!(list_local_engines(&vec![folder("4.x", true, vec![])]), Vec::<EngineInfo>::new());
}

#[test]
fn releases_group_by_major_in_encounter_order() {
    let releases = DocumentHandler::new(vec![
        tagged("4.4.1-stable"),
        tagged("3.6-stable"),
        tagged("4.3-stable"),
        tagged("3.5.1-stable"),
        tagged("4.4-stable"),
    ]);
    assert_eq!(
        group_remote_engines(&releases),
        Ok(vec![
            info("4.x", &["4.4.1-stable", "4.3-stable", "4.4-stable"]),
            info("3.x", &["3.6-stable", "3.5.1-stable"]),
        ])
    );
}

#[test]
fn grouping_needs_a_tag_on_every_release() {
    let releases = DocumentHandler::new(vec![tagged("4.4"), record(vec![("name", text("x"))])]);
    assert_eq!(group_remote_engines(&releases), Err(ManifestError::Malformed));
    let releases = DocumentHandler::new(vec![record(vec![("tag_name", Json::Integer(4))])]);
    assert_eq!(group_remote_engines(&releases), Err(ManifestError::Malformed));
    assert_eq!(group_remote_engines(&DocumentHandler::new(vec![])), Ok(vec![]));
}

#[test]
fn remote_engines_from_the_manifest() {
    let m = Json::Array(vec![
        release("4.4.1-stable", vec![asset("Godot_v4.4.1-stable_win64.exe.zip", 1)]),
        release("3.6-stable", vec![]),
        release("4.3-stable", vec![]),
    ]);
    assert_eq!(
        list_remote_engines(Some(&m), OS::Windows, Architecture::AMD64),
        Ok(vec![info("4.x", &["4.4.1-stable", "4.3-stable"]), info("3.x", &["3.6-stable"])])
    );
    assert_eq!(
        list_remote_engines(None, OS::Windows, Architecture::AMD64),
        Err(ManifestError::ManifestMissing)
    );
    assert_eq!(
        list_remote_engines(Some(&Json::Null), OS::Windows, Architecture::AMD64),
        Err(ManifestError::Malformed)
    );
}

#[test]
fn assets_are_listed_without_texts_and_addresses() {
    let assets = DocumentHandler::new(vec![
        asset("Godot_v4.4.1-stable_win64.exe.zip", 100),
        asset("SHA512-SUMS.txt", 40),
        asset("Godot_v4.4.1-stable_export_templates.tpz", 300),
    ]);
    assert_eq!(
        listed_assets(&assets),
        Ok(vec![
            record(vec![
                ("name", text("Godot_v4.4.1-stable_win64.exe.zip")),
                ("size", Json::Integer(100)),
                ("updated_at", text("2025-03-26T10:11:12Z")),
            ]),
            record(vec![
                ("name", text("Godot_v4.4.1-stable_export_templates.tpz")),
                ("size", Json::Integer(300)),
                ("updated_at", text("2025-03-26T10:11:12Z")),
            ]),
        ])
    );
    let stray = DocumentHandler::new(vec![text("stray")]);
    assert_eq!(listed_assets(&stray), Err(ManifestError::Malformed));
}

#[test]
fn assets_of_a_version_are_listed_for_the_platform() {
    let m = Json::Array(vec![
        release("4.3-stable", vec![asset("Godot_v4.3-stable_win64.exe.zip", 5)]),
        release(
            "4.4.1-stable",
            vec![
                asset("Godot_v4.4.1-stable_win64.exe.zip", 100),
                asset("Godot_v4.4.1-stable_linux.x86_64.zip", 200),
                asset("SHA512-SUMS.txt", 40),
            ],
        ),
    ]);
    assert_eq!(
        list_remote_engine_assets(Some(&m), "4.4", OS::Windows, Architecture::AMD64),
        Ok(vec![record(vec![
            ("name", text("Godot_v4.4.1-stable_win64.exe.zip")),
            ("size", Json::Integer(100)),
            ("updated_at", text("2025-03-26")),
        ])])
    );
    assert_eq!(
        list_remote_engine_assets(Some(&m), "4.4", OS::Linux, Architecture::AMD64),
        Ok(vec![record(vec![
            ("name", text("Godot_v4.4.1-stable_linux.x86_64.zip")),
            ("size", Json::Integer(200)),
            ("updated_at", text("2025-03-26")),
        ])])
    );
    assert_eq!(
        list_remote_engine_assets(Some(&m), "5", OS::Windows, Architecture::AMD64),
        Err(ManifestError::AssetNotFound)
    );
    assert_eq!(
        list_remote_engine_assets(None, "4.4", OS::Windows, Architecture::AMD64),
        Err(ManifestError::ManifestMissing)
    );
}

#[test]
fn grouping_by_the_derived_major_bucket() {
    let releases = DocumentHandler::new(vec![tagged("4.4.1"), tagged("4.3.0"), tagged("4.4.0")]);
    let groups = group_remote_engines(&releases).unwrap();
    assert_eq!(groups, vec![info("4.x", &["4.4.1", "4.3.0", "4.4.0"])]);
    assert!(groups.iter().all(|group| group.major != "3.x"));
}
