//! The configuration of the manager: its directories, the proxy, the active
//! version and the mirror.

use crate::json::{lookup, with_member, Json, JsonView, Record, RecordView};
use crate::source::{lemma_label_round_trip, Source};
use vstd::prelude::*;
use vstd::string::StringExecFns;

verus! {

/// The configuration. Directories are kept as the text of their paths.
#[derive(Debug, Clone, PartialEq, Eq)]
pub struct Config {
    /// The directory of the manager.
    pub root: String,
    /// Where versions are installed.
    pub home: String,
    /// Where archives and checksum lists are kept.
    pub cache: String,
    /// Where the release manifest is kept.
    pub data: String,
    /// The address of the proxy, or nothing.
    pub proxy: String,
    /// The name of the active version, or nothing.
    pub version: String,
    /// The mirror that files are fetched from.
    pub source: Source,
}

/// What a configuration holds.
pub struct ConfigView {
    pub root: Seq<char>,
    pub home: Seq<char>,
    pub cache: Seq<char>,
    pub data: Seq<char>,
    pub proxy: Seq<char>,
    pub version: Seq<char>,
    pub source: Source,
}

impl View for Config {
    type V = ConfigView;

    open spec fn view(&self) -> ConfigView {
        ConfigView {
            root: self.root@,
            home: self.home@,
            cache: self.cache@,
            data: self.data@,
            proxy: self.proxy@,
            version: self.version@,
            source: self.source,
        }
    }
}

/// The path of an entry of a directory.
pub open spec fn joined(base: Seq<char>, child: Seq<char>) -> Seq<char> {
    base + "/"@ + child
}

/// The path of an entry of a directory.
pub fn join(base: &str, child: &str) -> (path: String)
    ensures
        path@ == joined(base@, child@),
{
    let mut path = base.to_owned();
    path.append("/");
    path.append(child);
    path
}

/// The text of a value; nothing where the value is no text.
pub open spec fn text_or_empty(value: JsonView) -> Seq<char> {
    match value {
        JsonView::Text(t) => t,
        _ => Seq::empty(),
    }
}

/// The text of a value; nothing where the value is no text.
pub fn val2str(value: &Json) -> (text: String)
    ensures
        text@ == text_or_empty(value@),
{
    match value.as_str() {
        Some(t) => t.to_owned(),
        None => String::new(),
    }
}

/// The truth value of a value; false where the value is none.
pub fn val2bool(value: &Json) -> (flag: bool)
    ensures
        flag == match value@ {
            JsonView::Bool(b) => b,
            _ => false,
        },
{
    match value {
        Json::Bool(b) => *b,
        _ => false,
    }
}

/// The configuration for a new directory of the manager.
pub open spec fn fresh(root: Seq<char>) -> ConfigView {
    ConfigView {
        root,
        home: joined(root, "home"@),
        cache: joined(root, "cache"@),
        data: joined(root, "data"@),
        proxy: Seq::empty(),
        version: Seq::empty(),
        source: Source::GodotHub,
    }
}

/// The configuration that a record stores. Every field must be there; one
/// that holds no text counts as empty, and a mirror that is not known as
/// the default mirror.
pub open spec fn stored(rec: RecordView) -> Option<ConfigView> {
    match (
        lookup(rec, "root"@),
        lookup(rec, "home"@),
        lookup(rec, "cache"@),
        lookup(rec, "data"@),
        lookup(rec, "proxy"@),
        lookup(rec, "version"@),
        lookup(rec, "source"@),
    ) {
        (Some(root), Some(home), Some(cache), Some(data), Some(proxy), Some(version), Some(source)) => Some(
            ConfigView {
                root: text_or_empty(root),
                home: text_or_empty(home),
                cache: text_or_empty(cache),
                data: text_or_empty(data),
                proxy: text_or_empty(proxy),
                version: text_or_empty(version),
                source: Source::labelled(text_or_empty(source)),
            },
        ),
        _ => None,
    }
}

/// The record that stores a configuration.
pub open spec fn record_for(cfg: ConfigView) -> RecordView {
    seq![
        ("root"@, JsonView::Text(cfg.root)),
        ("home"@, JsonView::Text(cfg.home)),
        ("cache"@, JsonView::Text(cfg.cache)),
        ("data"@, JsonView::Text(cfg.data)),
        ("proxy"@, JsonView::Text(cfg.proxy)),
        ("version"@, JsonView::Text(cfg.version)),
        ("source"@, JsonView::Text(cfg.source.name())),
    ]
}

/// What an optional configuration holds.
pub open spec fn option_config(cfg: Option<Config>) -> Option<ConfigView> {
    match cfg {
        Some(c) => Some(c@),
        None => None,
    }
}

impl Config {
    /// The configuration for a new directory of the manager.
    pub fn new(root: &str) -> (cfg: Self)
        ensures
            cfg@ == fresh(root@),
    {
        Config {
            root: root.to_owned(),
            home: join(root, "home"),
            cache: join(root, "cache"),
            data: join(root, "data"),
            proxy: String::new(),
            version: String::new(),
            source: Source::GodotHub,
        }
    }

    /// The path of the file that stores the configuration.
    pub fn get_config_path(root: &str) -> (path: String)
        ensures
            path@ == joined(root@, "config.json"@),
    {
        join(root, "config.json")
    }

    /// The configuration that a parsed configuration file stores.
    pub fn load(config: &Json) -> (cfg: Option<Self>)
        ensures
            option_config(cfg) == match config@ {
                JsonView::Object(rec) => stored(rec),
                _ => None,
            },
    {
        let rec = match config.as_object() {
            Some(rec) => rec,
            None => {
                return None;
            },
        };
        let root = match rec.get("root") {
            Some(v) => val2str(v),
            None => {
                return None;
            },
        };
        let home = match rec.get("home") {
            Some(v) => val2str(v),
            None => {
                return None;
            },
        };
        let cache = match rec.get("cache") {
            Some(v) => val2str(v),
            None => {
                return None;
            },
        };
        let data = match rec.get("data") {
            Some(v) => val2str(v),
            None => {
                return None;
            },
        };
        let proxy = match rec.get("proxy") {
            Some(v) => val2str(v),
            None => {
                return None;
            },
        };
        let version = match rec.get("version") {
            Some(v) => val2str(v),
            None => {
                return None;
            },
        };
        let source = match rec.get("source") {
            Some(v) => Source::from_str(val2str(v).as_str()),
            None => {
                return None;
            },
        };
        Some(Config { root, home, cache, data, proxy, version, source })
    }

    /// The value that is written to the configuration file.
    pub fn save(&self) -> (config: Json)
        ensures
            config@ == JsonView::Object(record_for(self@)),
    {
        let mut rec = Record::new();
        rec.insert("root".to_owned(), Json::Text(self.root.clone()));
        rec.insert("home".to_owned(), Json::Text(self.home.clone()));
        rec.insert("cache".to_owned(), Json::Text(self.cache.clone()));
        rec.insert("data".to_owned(), Json::Text(self.data.clone()));
        rec.insert("proxy".to_owned(), Json::Text(self.proxy.clone()));
        rec.insert("version".to_owned(), Json::Text(self.version.clone()));
        rec.insert("source".to_owned(), Json::Text(self.source.get_name().to_owned()));
        proof {
            lemma_record_for(self@);
            crate::json::lemma_object_view(rec);
        }
        Json::Object(rec)
    }

    /// Makes `version` the active version.
    pub fn switch_version(&mut self, version: &str)
        ensures
            final(self)@ == (ConfigView { version: version@, ..old(self)@ }),
    {
        self.version = version.to_owned();
    }
}

/// The names of the fields of a stored configuration differ from one
/// another.
proof fn lemma_field_names()
    ensures
        "root"@.len() == 4 && "home"@.len() == 4 && "cache"@.len() == 5 && "data"@.len() == 4
            && "proxy"@.len() == 5 && "version"@.len() == 7 && "source"@.len() == 6,
        "root"@[0] == 'r' && "home"@[0] == 'h' && "cache"@[0] == 'c' && "data"@[0] == 'd'
            && "proxy"@[0] == 'p',
{
    reveal_strlit("root");
    reveal_strlit("home");
    reveal_strlit("cache");
    reveal_strlit("data");
    reveal_strlit("proxy");
    reveal_strlit("version");
    reveal_strlit("source");
}

/// Putting the seven fields into an empty record, one after the other,
/// gives the record of the configuration.
proof fn lemma_record_for(cfg: ConfigView)
    ensures
        record_for(cfg) == with_member(
            with_member(
                with_member(
                    with_member(
                        with_member(
                            with_member(
                                with_member(
                                    Seq::<(Seq<char>, JsonView)>::empty(),
                                    "root"@,
                                    JsonView::Text(cfg.root),
                                ),
                                "home"@,
                                JsonView::Text(cfg.home),
                            ),
                            "cache"@,
                            JsonView::Text(cfg.cache),
                        ),
                        "data"@,
                        JsonView::Text(cfg.data),
                    ),
                    "proxy"@,
                    JsonView::Text(cfg.proxy),
                ),
                "version"@,
                JsonView::Text(cfg.version),
            ),
            "source"@,
            JsonView::Text(cfg.source.name()),
        ),
{
    lemma_field_names();
    let r0 = Seq::<(Seq<char>, JsonView)>::empty();
    let r1 = with_member(r0, "root"@, JsonView::Text(cfg.root));
    assert(r1 =~= seq![("root"@, JsonView::Text(cfg.root))]);
    let r2 = with_member(r1, "home"@, JsonView::Text(cfg.home));
    crate::json::lemma_index_of_name_is(r1, "home"@, 1);
    assert(r2 =~= r1.push(("home"@, JsonView::Text(cfg.home))));
    let r3 = with_member(r2, "cache"@, JsonView::Text(cfg.cache));
    crate::json::lemma_index_of_name_is(r2, "cache"@, 2);
    assert(r3 =~= r2.push(("cache"@, JsonView::Text(cfg.cache))));
    let r4 = with_member(r3, "data"@, JsonView::Text(cfg.data));
    crate::json::lemma_index_of_name_is(r3, "data"@, 3);
    assert(r4 =~= r3.push(("data"@, JsonView::Text(cfg.data))));
    let r5 = with_member(r4, "proxy"@, JsonView::Text(cfg.proxy));
    crate::json::lemma_index_of_name_is(r4, "proxy"@, 4);
    assert(r5 =~= r4.push(("proxy"@, JsonView::Text(cfg.proxy))));
    let r6 = with_member(r5, "version"@, JsonView::Text(cfg.version));
    crate::json::lemma_index_of_name_is(r5, "version"@, 5);
    assert(r6 =~= r5.push(("version"@, JsonView::Text(cfg.version))));
    let r7 = with_member(r6, "source"@, JsonView::Text(cfg.source.name()));
    crate::json::lemma_index_of_name_is(r6, "source"@, 6);
    assert(r7 =~= r6.push(("source"@, JsonView::Text(cfg.source.name()))));
    assert(r7 =~= record_for(cfg));
}

/// What is saved of a configuration is loaded as the same configuration.
pub proof fn lemma_config_round_trip(cfg: ConfigView)
    ensures
        stored(record_for(cfg)) == Some(cfg),
{
    lemma_field_names();
    lemma_label_round_trip(cfg.source);
    let r = record_for(cfg);
    crate::json::lemma_index_of_name_is(r, "root"@, 0);
    crate::json::lemma_index_of_name_is(r, "home"@, 1);
    crate::json::lemma_index_of_name_is(r, "cache"@, 2);
    crate::json::lemma_index_of_name_is(r, "data"@, 3);
    crate::json::lemma_index_of_name_is(r, "proxy"@, 4);
    crate::json::lemma_index_of_name_is(r, "version"@, 5);
    crate::json::lemma_index_of_name_is(r, "source"@, 6);
}

} // verus!
