use gdem::config::{join, val2bool, val2str, Config};
use gdem::install::InstallTarget;
use gdem::json::{Json, Record};
use gdem::source::Source;
use gdem::store::{
    removal, remove_engine, switch_engine, symlink, uninstall_engine, NodeKind, Removal,
    StoreError,
};

fn text(s: &str) -> Json {
    Json::Text(s.to_string())
}

fn record(members: Vec<(&str, Json)>) -> Json {
    let mut rec = Record::new();
    for (name, value) in members {
        rec.insert(name.to_string(), value);
    }
    Json::Object(rec)
}

fn target(major: &str, version: &str, name: &str) -> InstallTarget {
    InstallTarget { major: major.to_string(), version: version.to_string(), name: name.to_string() }
}

#[test]
fn paths_join_with_a_slash() {
    assert_eq!(join("/home/u/.gdem", "cache"), "/home/u/.gdem/cache");
    assert_eq!(join("", "x"), "/x");
    assert_eq!(Config::get_config_path("/r"), "/r/config.json");
}

#[test]
fn values_read_as_text_and_truth() {
    assert_eq!(val2str(&text("abc")), "abc");
    assert_eq!(val2str(&Json::Integer(5)), "");
    assert_eq!(val2str(&Json::Null), "");
    assert!(val2bool(&Json::Bool(true)));
    assert!(!val2bool(&Json::Bool(false)));
    assert!(!val2bool(&text("true")));
    assert!(!val2bool(&Json::Null));
}

#[test]
fn a_new_configuration_has_the_three_directories() {
    let cfg = Config::new("/r");
    assert_eq!(
        cfg,
        Config {
            root: "/r".to_string(),
            home: "/r/home".to_string(),
            cache: "/r/cache".to_string(),
            data: "/r/data".to_string(),
            proxy: "".to_string(),
            version: "".to_string(),
            source: Source::GodotHub,
        }
    );
}

#[test]
fn a_configuration_is_saved_field_by_field() {
    let mut cfg = Config::new("/r");
    cfg.proxy = "http://127.0.0.1:7890".to_string();
    cfg.source = Source::GodotEngine;
    assert_eq!(
        cfg.save(),
        record(vec![
            ("root", text("/r")),
            ("home", text("/r/home")),
            ("cache", text("/r/cache")),
            ("data", text("/r/data")),
            ("proxy", text("http://127.0.0.1:7890")),
            ("version", text("")),
            ("source", text("GodotEngine")),
        ])
    );
}

#[test]
fn a_saved_configuration_loads_as_it_was() {
    let mut cfg = Config::new("/somewhere/else");
    cfg.switch_version("Godot_v4.4.1-stable_win64");
    cfg.source = Source::GodotEngine;
    assert_eq!(Config::load(&cfg.save()), Some(cfg.clone()));
    let plain = Config::new("");
    assert_eq!(Config::load(&plain.save()), Some(plain));
}

#[test]
fn loading_needs_every_field() {
    assert_eq!(Config::load(&Json::Null), None);
    assert_eq!(Config::load(&Json::Array(vec![])), None);
    let full = Config::new("/r").save();
    for name in ["root", "home", "cache", "data", "proxy", "version", "source"] {
        let mut rec = full.as_object().unwrap().clone();
        rec.remove(name);
        assert_eq!(Config::load(&Json::Object(rec)), None, "without {}", name);
    }
}

#[test]
fn loading_reads_what_is_no_text_as_empty() {
    let mut rec = Config::new("/r").save().as_object().unwrap().clone();
    rec.insert("proxy".to_string(), Json::Null);
    rec.insert("version".to_string(), Json::Integer(4));
    rec.insert("source".to_string(), text("Elsewhere"));
    let cfg = Config::load(&Json::Object(rec)).unwrap();
    assert_eq!(cfg.proxy, "");
    assert_eq!(cfg.version, "");
    assert_eq!(cfg.source, Source::GodotHub);
    assert_eq!(cfg.home, "/r/home");
}

#[test]
fn switching_changes_the_version_only() {
    let mut cfg = Config::new("/r");
    let before = cfg.clone();
    cfg.switch_version("Godot_v4.4.1-stable_win64");
    assert_eq!(cfg.version, "Godot_v4.4.1-stable_win64");
    cfg.version = before.version.clone();
    assert_eq!(cfg, before);
}

#[test]
fn what_is_not_installed_cannot_be_removed() {
    let t = target("4.x", "4.4.1", "Godot_v4.4.1-stable_win64");
    assert_eq!(removal(t.clone(), true), Ok(t.clone()));
    assert_eq!(removal(t, false), Err(StoreError::NotFound));
    assert_eq!(StoreError::NotFound.message(), "Engine not found");
}

#[test]
fn removing_an_engine_names_its_directory() {
    assert_eq!(
        remove_engine("Godot_v4.4.1-stable_win64.exe.zip", true),
        Ok(target("4.x", "4.4.1", "Godot_v4.4.1-stable_win64"))
    );
    assert_eq!(
        remove_engine("Godot_v4.4.1-stable_win64", true),
        Ok(target("4.x", "4.4.1", "Godot_v4.4.1-stable_win64"))
    );
    assert_eq!(remove_engine("Godot_v4.4.1-stable_win64", false), Err(StoreError::NotFound));
    assert_eq!(remove_engine("Godot", true), Err(StoreError::NotFound));
}

#[test]
fn uninstalling_gives_the_directory_or_nothing() {
    assert_eq!(
        uninstall_engine("Godot_v3.6-stable_win32.exe.zip", true),
        Some(target("3.x", "3.6", "Godot_v3.6-stable_win32"))
    );
    assert_eq!(uninstall_engine("Godot_v3.6-stable_win32.exe.zip", false), None);
    assert_eq!(uninstall_engine("Godot", true), None);
}

#[test]
fn whatever_stands_at_the_link_is_cleared() {
    assert_eq!(symlink(NodeKind::Absent), Removal::Nothing);
    assert_eq!(symlink(NodeKind::File), Removal::File);
    assert_eq!(symlink(NodeKind::Link), Removal::File);
    assert_eq!(symlink(NodeKind::Directory), Removal::Tree);
}

#[test]
fn switching_twice_leaves_one_link_to_the_second_version() {
    let first = switch_engine("Godot_v4.3-stable_win64", NodeKind::Absent).unwrap();
    assert_eq!(first.removal, Removal::Nothing);
    assert_eq!(first.target, target("4.x", "4.3", "Godot_v4.3-stable_win64"));
    let second = switch_engine("Godot_v4.4.1-stable_win64", NodeKind::Link).unwrap();
    assert_eq!(second.removal, Removal::File);
    assert_eq!(second.target, target("4.x", "4.4.1", "Godot_v4.4.1-stable_win64"));
}

#[test]
fn switching_replaces_a_directory_in_the_way() {
    let plan = switch_engine("Godot_v4.4.1-stable_win64", NodeKind::Directory).unwrap();
    assert_eq!(plan.removal, Removal::Tree);
    assert_eq!(switch_engine("Godot", NodeKind::Link), None);
}
