//! What is installed and what can be installed, by major bucket.

use crate::handler::{
    aggregated, grouped, items_under, lemma_aggregated_by_identity, lemma_flitter_is_filter,
    names_of, projected_doc, record_of, text_of, text_under, DocumentHandler,
};
use crate::json::{lemma_object_view, views_of, with_member, Json, JsonView};
use crate::order::{
    insert_by, lemma_insertion_point_is, lemma_sort_by_ordered, lemma_sort_by_permutes, ordered_by,
    sort_by, total, transitive,
};
use crate::tags::{texts_of, Architecture, OS};
use crate::text::{
    chars_of, ends_with, has_suffix, le_chars, lemma_lex_le_total, lemma_lex_le_transitive, lex_le,
};
use crate::tool::{
    all_texts_under, assets_for, assets_of_version, get_major_from_tag,
    load_remote_engines_handler, loaded, major_of, option_json, ManifestError,
};
use vstd::prelude::*;

verus! {

/// The versions of one major bucket.
#[derive(Debug, Clone, PartialEq, Eq)]
pub struct EngineInfo {
    pub major: String,
    pub versions: Vec<String>,
}

/// What an `EngineInfo` holds.
pub struct EngineInfoView {
    pub major: Seq<char>,
    pub versions: Seq<Seq<char>>,
}

impl View for EngineInfo {
    type V = EngineInfoView;

    open spec fn view(&self) -> EngineInfoView {
        EngineInfoView { major: self.major@, versions: texts_of(self.versions@) }
    }
}

/// What a vector of `EngineInfo` holds.
pub open spec fn infos_of(list: Seq<EngineInfo>) -> Seq<EngineInfoView> {
    list.map_values(|e: EngineInfo| e@)
}

/// One entry of a directory.
#[derive(Debug, Clone, PartialEq, Eq)]
pub struct Entry {
    pub name: String,
    pub is_dir: bool,
}

/// One entry of the directory of installed versions, with the entries it
/// holds where it is a directory.
#[derive(Debug, Clone, PartialEq, Eq)]
pub struct Folder {
    pub name: String,
    pub is_dir: bool,
    pub entries: Vec<Entry>,
}

/// What an `Entry` holds.
pub struct EntryView {
    pub name: Seq<char>,
    pub is_dir: bool,
}

/// What a `Folder` holds.
pub struct FolderView {
    pub name: Seq<char>,
    pub is_dir: bool,
    pub entries: Seq<EntryView>,
}

impl View for Entry {
    type V = EntryView;

    open spec fn view(&self) -> EntryView {
        EntryView { name: self.name@, is_dir: self.is_dir }
    }
}

/// What a vector of entries holds.
pub open spec fn entries_of(entries: Seq<Entry>) -> Seq<EntryView> {
    entries.map_values(|e: Entry| e@)
}

impl View for Folder {
    type V = FolderView;

    open spec fn view(&self) -> FolderView {
        FolderView { name: self.name@, is_dir: self.is_dir, entries: entries_of(self.entries@) }
    }
}

/// What a vector of folders holds.
pub open spec fn folders_of(folders: Seq<Folder>) -> Seq<FolderView> {
    folders.map_values(|f: Folder| f@)
}

/// The order in which versions and buckets are listed: the reverse of the
/// dictionary, so that the latest comes first.
pub open spec fn latest_first() -> spec_fn(Seq<char>, Seq<char>) -> bool {
    |a: Seq<char>, b: Seq<char>| lex_le(b, a)
}

/// The order of buckets: by their names, latest first.
pub open spec fn by_major() -> spec_fn(EngineInfoView, EngineInfoView) -> bool {
    |a: EngineInfoView, b: EngineInfoView| lex_le(b.major, a.major)
}

/// The names of the entries that are directories, in order.
pub open spec fn directory_names(entries: Seq<EntryView>) -> Seq<Seq<char>> {
    entries.filter(|e: EntryView| e.is_dir).map_values(|e: EntryView| e.name)
}

/// Whether an entry of the directory of installed versions is a bucket
/// that holds a version.
pub open spec fn holds_versions(folder: FolderView) -> bool {
    folder.is_dir && directory_names(folder.entries).len() > 0
}

/// The bucket that a folder stands for, its versions latest first.
pub open spec fn bucket_of(folder: FolderView) -> EngineInfoView {
    EngineInfoView {
        major: folder.name,
        versions: sort_by(directory_names(folder.entries), latest_first()),
    }
}

/// The installed versions: one bucket for each directory that holds a
/// version directory, buckets and versions latest first.
pub open spec fn local_engines(home: Seq<FolderView>) -> Seq<EngineInfoView> {
    sort_by(
        home.filter(|f: FolderView| holds_versions(f)).map_values(|f: FolderView| bucket_of(f)),
        by_major(),
    )
}

/// Whether a bucket stands for one of the directories that hold a version.
pub open spec fn installed_bucket(home: Seq<FolderView>, bucket: EngineInfoView) -> bool {
    exists|k: int|
        0 <= k < home.len() && holds_versions(#[trigger] home[k]) && bucket_of(home[k]) == bucket
}

/// The two orders of the listing compare any two items, one way or the
/// other, and are transitive.
pub proof fn lemma_listing_orders()
    ensures
        total(latest_first()),
        transitive(latest_first()),
        total(by_major()),
        transitive(by_major()),
{
    let versions = latest_first();
    let buckets = by_major();
    assert forall|a: Seq<char>, b: Seq<char>| #[trigger]
        versions(a, b) || #[trigger] versions(b, a) by {
        lemma_lex_le_total(b, a);
    }
    assert forall|a: Seq<char>, b: Seq<char>, c: Seq<char>| #[trigger]
        versions(a, b) && #[trigger] versions(b, c) implies versions(a, c) by {
        lemma_lex_le_transitive(c, b, a);
    }
    assert forall|a: EngineInfoView, b: EngineInfoView| #[trigger]
        buckets(a, b) || #[trigger] buckets(b, a) by {
        lemma_lex_le_total(b.major, a.major);
    }
    assert forall|a: EngineInfoView, b: EngineInfoView, c: EngineInfoView| #[trigger]
        buckets(a, b) && #[trigger] buckets(b, c) implies buckets(a, c) by {
        lemma_lex_le_transitive(c.major, b.major, a.major);
    }
}

/// The installed versions are listed latest first: no bucket is followed
/// by a later one, and in no bucket is a version followed by a later one.
/// Every bucket listed stands for a directory that holds a version.
pub proof fn lemma_local_engines_are_ordered(home: Seq<FolderView>)
    ensures
        ordered_by(local_engines(home), by_major()),
        forall|i: int|
            0 <= i < local_engines(home).len() ==> ordered_by(
                (#[trigger] local_engines(home)[i]).versions,
                latest_first(),
            ),
        forall|i: int|
            0 <= i < local_engines(home).len() ==> installed_bucket(
                home,
                #[trigger] local_engines(home)[i],
            ),
{
    lemma_listing_orders();
    let keep = |f: FolderView| holds_versions(f);
    let kept = home.filter(keep);
    let buckets = kept.map_values(|f: FolderView| bucket_of(f));
    let listed = local_engines(home);
    lemma_sort_by_ordered(buckets, by_major());
    lemma_sort_by_permutes(buckets, by_major());
    assert forall|i: int| 0 <= i < listed.len() implies ordered_by(
        (#[trigger] listed[i]).versions,
        latest_first(),
    ) && installed_bucket(home, listed[i]) by {
        listed.to_multiset_ensures();
        buckets.to_multiset_ensures();
        assert(listed.contains(listed[i]));
        assert(listed.to_multiset().count(listed[i]) > 0);
        assert(listed.to_multiset() == buckets.to_multiset());
        assert(buckets.to_multiset().count(listed[i]) > 0);
        assert(buckets.contains(listed[i]));
        let j = choose|j: int| 0 <= j < buckets.len() && buckets[j] == listed[i];
        assert(buckets[j] == bucket_of(kept[j]));
        home.lemma_filter_contains_rev(keep, kept[j]);
        assert(home.contains(kept[j]));
        let k = choose|k: int| 0 <= k < home.len() && home[k] == kept[j];
        assert(holds_versions(home[k])) by {
            home.lemma_filter_pred(keep, j);
        }
        assert(bucket_of(home[k]) == listed[i]);
        lemma_sort_by_ordered(directory_names(kept[j].entries), latest_first());
    }
}

/// The texts, latest first. Equal texts stay in their order.
pub fn sort_latest_first(items: Vec<String>) -> (out: Vec<String>)
    ensures
        texts_of(out@) == sort_by(texts_of(items@), latest_first()),
{
    let ghost le = latest_first();
    let ghost all = texts_of(items@);
    let mut out: Vec<String> = Vec::new();
    let mut i: usize = 0;
    assert(texts_of(out@) =~= sort_by(all.take(0), le));
    while i < items.len()
        invariant
            i <= items.len(),
            all == texts_of(items@),
            le == latest_first(),
            texts_of(out@) == sort_by(all.take(i as int), le),
        decreases items.len() - i,
    {
        let x = items[i].clone();
        let xc = chars_of(x.as_str());
        let ghost sorted = texts_of(out@);
        let mut p: usize = out.len();
        while p > 0 && !le_chars(&xc, &chars_of(out[p - 1].as_str()))
            invariant
                p <= out.len(),
                sorted == texts_of(out@),
                le == latest_first(),
                xc@ == x@,
                forall|j: int| p <= j < sorted.len() ==> !le(#[trigger] sorted[j], x@),
            decreases p,
        {
            p -= 1;
        }
        proof {
            if p > 0 {
                assert(le(sorted[p - 1], x@));
            }
            lemma_insertion_point_is(sorted, x@, le, p as int);
            let upto = all.take(i + 1);
            assert(upto.drop_last() =~= all.take(i as int));
            assert(upto.last() == x@);
            assert(sort_by(upto, le) == insert_by(sorted, x@, le));
        }
        out.insert(p, x);
        assert(texts_of(out@) =~= sorted.insert(p as int, x@));
        i += 1;
    }
    assert(all.take(items.len() as int) =~= all);
    out
}

/// The buckets by their names, latest first. Buckets of one name stay in
/// their order.
pub fn sort_by_major(items: Vec<EngineInfo>) -> (out: Vec<EngineInfo>)
    ensures
        infos_of(out@) == sort_by(infos_of(items@), by_major()),
{
    let ghost le = by_major();
    let ghost all = infos_of(items@);
    let mut rest = items;
    let mut out: Vec<EngineInfo> = Vec::new();
    let mut i: usize = 0;
    let n = rest.len();
    assert(infos_of(out@) =~= sort_by(all.take(0), le));
    while i < n
        invariant
            i <= n,
            n == all.len(),
            rest.len() == n - i,
            infos_of(rest@) == all.skip(i as int),
            le == by_major(),
            infos_of(out@) == sort_by(all.take(i as int), le),
        decreases n - i,
    {
        let ghost remaining = infos_of(rest@);
        let ghost held = rest@;
        let x = rest.remove(0);
        assert(x@ == remaining[0]);
        assert(rest@ =~= held.skip(1));
        assert(infos_of(rest@) =~= remaining.skip(1));
        assert(remaining.skip(1) =~= all.skip(i + 1));
        let xc = chars_of(x.major.as_str());
        let ghost sorted = infos_of(out@);
        let mut p: usize = out.len();
        while p > 0 && !le_chars(&xc, &chars_of(out[p - 1].major.as_str()))
            invariant
                p <= out.len(),
                sorted == infos_of(out@),
                le == by_major(),
                xc@ == x.major@,
                forall|j: int| p <= j < sorted.len() ==> !le(#[trigger] sorted[j], x@),
            decreases p,
        {
            p -= 1;
        }
        proof {
            if p > 0 {
                assert(le(sorted[p - 1], x@));
            }
            lemma_insertion_point_is(sorted, x@, le, p as int);
            let upto = all.take(i + 1);
            assert(upto.drop_last() =~= all.take(i as int));
            assert(upto.last() == x@);
            assert(sort_by(upto, le) == insert_by(sorted, x@, le));
        }
        let ghost xv = x@;
        out.insert(p, x);
        assert(infos_of(out@) =~= sorted.insert(p as int, xv));
        i += 1;
    }
    assert(all.take(n as int) =~= all);
    out
}

/// The names of the entries that are directories, in order.
fn names_of_directories(entries: &Vec<Entry>) -> (names: Vec<String>)
    ensures
        texts_of(names@) == directory_names(entries_of(entries@)),
{
    let ghost all = entries_of(entries@);
    let ghost pred = |e: EntryView| e.is_dir;
    let ghost name = |e: EntryView| e.name;
    let mut names: Vec<String> = Vec::new();
    let mut i: usize = 0;
    proof {
        reveal(Seq::filter);
        assert(all.take(0) =~= Seq::<EntryView>::empty());
        assert(texts_of(names@) =~= all.take(0).filter(pred).map_values(name));
    }
    while i < entries.len()
        invariant
            i <= entries.len(),
            all == entries_of(entries@),
            pred == (|e: EntryView| e.is_dir),
            name == (|e: EntryView| e.name),
            texts_of(names@) == all.take(i as int).filter(pred).map_values(name),
        decreases entries.len() - i,
    {
        let ghost before = texts_of(names@);
        proof {
            let upto = all.take(i + 1);
            assert(upto =~= all.take(i as int).push(all[i as int]));
            all.take(i as int).lemma_filter_push(all[i as int], pred);
        }
        if entries[i].is_dir {
            names.push(entries[i].name.clone());
            assert(texts_of(names@) =~= before.push(entries[i as int].name@));
            assert(all.take(i as int).filter(pred).push(all[i as int]).map_values(name)
                =~= all.take(i as int).filter(pred).map_values(name).push(all[i as int].name));
        }
        i += 1;
    }
    assert(all.take(entries.len() as int) =~= all);
    names
}

/// The installed versions by bucket, from what the directory of installed
/// versions holds: buckets and versions latest first. An empty directory
/// gives an empty list.
pub fn list_local_engines(home: &Vec<Folder>) -> (engine_list: Vec<EngineInfo>)
    ensures
        infos_of(engine_list@) == local_engines(folders_of(home@)),
{
    let ghost all = folders_of(home@);
    let ghost pred = |f: FolderView| holds_versions(f);
    let ghost bucket = |f: FolderView| bucket_of(f);
    let mut found: Vec<EngineInfo> = Vec::new();
    let mut i: usize = 0;
    proof {
        reveal(Seq::filter);
        assert(all.take(0) =~= Seq::<FolderView>::empty());
        assert(infos_of(found@) =~= all.take(0).filter(pred).map_values(bucket));
    }
    while i < home.len()
        invariant
            i <= home.len(),
            all == folders_of(home@),
            pred == (|f: FolderView| holds_versions(f)),
            bucket == (|f: FolderView| bucket_of(f)),
            infos_of(found@) == all.take(i as int).filter(pred).map_values(bucket),
        decreases home.len() - i,
    {
        let ghost before = infos_of(found@);
        proof {
            let upto = all.take(i + 1);
            assert(upto =~= all.take(i as int).push(all[i as int]));
            all.take(i as int).lemma_filter_push(all[i as int], pred);
        }
        if home[i].is_dir {
            let names = names_of_directories(&home[i].entries);
            if names.len() > 0 {
                let versions = sort_latest_first(names);
                let info = EngineInfo { major: home[i].name.clone(), versions };
                assert(info@ == bucket_of(all[i as int]));
                found.push(info);
                assert(infos_of(found@) =~= before.push(bucket_of(all[i as int])));
                assert(all.take(i as int).filter(pred).push(all[i as int]).map_values(bucket)
                    =~= all.take(i as int).filter(pred).map_values(bucket).push(
                    bucket_of(all[i as int]),
                ));
            }
        }
        i += 1;
    }
    assert(all.take(home.len() as int) =~= all);
    sort_by_major(found)
}

/// The field that is kept of a release when the versions are listed.
pub open spec fn tag_field() -> Seq<Seq<char>> {
    seq!["tag_name"@]
}

/// A release with its major bucket put under `major`. What has no text as
/// tag stays as it is.
pub open spec fn with_major(release: JsonView) -> JsonView {
    match release {
        JsonView::Object(rec) => match text_under(release, "tag_name"@) {
            Some(tag) => JsonView::Object(
                with_member(rec, "major"@, JsonView::Text(major_of(tag))),
            ),
            None => release,
        },
        _ => release,
    }
}

/// The texts among the values, in order.
pub open spec fn texts_in(items: Seq<JsonView>) -> Seq<Seq<char>> {
    items.filter(|v: JsonView| v is Text).map_values(|v: JsonView| v->Text_0)
}

/// The bucket that a group of releases stands for: the text under `major`,
/// and the tags of the group in the order in which they were met.
pub open spec fn engine_of(group: JsonView) -> EngineInfoView {
    EngineInfoView {
        major: match text_under(group, "major"@) {
            Some(major) => major,
            None => Seq::empty(),
        },
        versions: texts_in(items_under(record_of(group), "tag_name"@)),
    }
}

/// The versions that the releases offer, by major bucket: buckets in the
/// order in which they were first met, and in each the tags in the order of
/// the releases. Every release must have a text as tag.
pub open spec fn remote_engines(releases: Seq<JsonView>) -> Result<
    Seq<EngineInfoView>,
    ManifestError,
> {
    if !all_texts_under(releases, "tag_name"@) {
        Err(ManifestError::Malformed)
    } else {
        match grouped(releases.map_values(|r: JsonView| with_major(r)), "major"@) {
            Ok(groups) => Ok(groups.map_values(|g: JsonView| engine_of(g))),
            Err(_) => Err(ManifestError::Malformed),
        }
    }
}

/// What a result holds, with contents in place of the buckets.
pub open spec fn result_infos(r: Result<Vec<EngineInfo>, ManifestError>) -> Result<
    Seq<EngineInfoView>,
    ManifestError,
> {
    match r {
        Ok(list) => Ok(infos_of(list@)),
        Err(e) => Err(e),
    }
}

/// The texts among the values, in order.
fn texts_among(items: &Vec<Json>) -> (texts: Vec<String>)
    ensures
        texts_of(texts@) == texts_in(views_of(items@)),
{
    let ghost all = views_of(items@);
    let ghost pred = |v: JsonView| v is Text;
    let ghost content = |v: JsonView| v->Text_0;
    let mut texts: Vec<String> = Vec::new();
    let mut i: usize = 0;
    proof {
        reveal(Seq::filter);
        assert(all.take(0) =~= Seq::<JsonView>::empty());
        assert(texts_of(texts@) =~= all.take(0).filter(pred).map_values(content));
    }
    while i < items.len()
        invariant
            i <= items.len(),
            all == views_of(items@),
            pred == (|v: JsonView| v is Text),
            content == (|v: JsonView| v->Text_0),
            texts_of(texts@) == all.take(i as int).filter(pred).map_values(content),
        decreases items.len() - i,
    {
        let ghost before = texts_of(texts@);
        proof {
            let upto = all.take(i + 1);
            assert(upto =~= all.take(i as int).push(all[i as int]));
            all.take(i as int).lemma_filter_push(all[i as int], pred);
        }
        match items[i].as_str() {
            Some(t) => {
                texts.push(t.to_owned());
                assert(texts_of(texts@) =~= before.push(t@));
                assert(all.take(i as int).filter(pred).push(all[i as int]).map_values(content)
                    =~= all.take(i as int).filter(pred).map_values(content).push(t@));
            },
            None => {},
        }
        i += 1;
    }
    assert(all.take(items.len() as int) =~= all);
    texts
}

/// The bucket that a group of releases stands for.
fn engine_from(group: &Json) -> (info: EngineInfo)
    ensures
        info@ == engine_of(group@),
{
    let major = match text_of(group, "major") {
        Some(major) => major.to_owned(),
        None => String::new(),
    };
    let versions = match group.as_object() {
        Some(rec) => match rec.get("tag_name") {
            Some(value) => match value.as_array() {
                Some(items) => texts_among(items),
                None => Vec::new(),
            },
            None => Vec::new(),
        },
        None => Vec::new(),
    };
    proof {
        reveal(Seq::filter);
        assert(texts_in(Seq::<JsonView>::empty()) =~= Seq::<Seq<char>>::empty());
        assert(texts_of(Seq::<String>::empty()) =~= Seq::<Seq<char>>::empty());
    }
    EngineInfo { major, versions }
}

/// The versions that the loaded releases offer, by major bucket.
pub fn group_remote_engines(releases: &DocumentHandler) -> (engine_list: Result<
    Vec<EngineInfo>,
    ManifestError,
>)
    ensures
        result_infos(engine_list) == remote_engines(releases@),
{
    let ghost all = releases@;
    let ghost marked = all.map_values(|r: JsonView| with_major(r));
    let mut docs: Vec<Json> = Vec::new();
    let mut i: usize = 0;
    while i < releases.document.len()
        invariant
            i <= releases.document.len(),
            all == releases@,
            docs.len() == i,
            forall|k: int| 0 <= k < i ==> text_under(#[trigger] all[k], "tag_name"@) is Some,
            forall|k: int| 0 <= k < i ==> (#[trigger] docs[k])@ == with_major(all[k]),
        decreases releases.document.len() - i,
    {
        let release = &releases.document[i];
        let tag = match text_of(release, "tag_name") {
            Some(tag) => tag,
            None => {
                assert(text_under(all[i as int], "tag_name"@) is None);
                return Err(ManifestError::Malformed);
            },
        };
        let major = get_major_from_tag(tag);
        let mut rec = release.as_object().unwrap().clone();
        rec.insert("major".to_owned(), Json::Text(major));
        proof {
            lemma_object_view(rec);
        }
        docs.push(Json::Object(rec));
        i += 1;
    }
    let handler = DocumentHandler::new(docs);
    assert(handler@ =~= marked);
    let as_it_is = |items: Vec<Json>| -> (out: Vec<Json>)
        ensures
            out == items,
        { items };
    let groups = match handler.group_by("major", Some(as_it_is)) {
        Ok(groups) => groups,
        Err(_) => {
            return Err(ManifestError::Malformed);
        },
    };
    proof {
        let plain = grouped(marked, "major"@)->Ok_0;
        lemma_aggregated_by_identity(as_it_is, "major"@, plain, groups@);
    }
    let ghost plain = groups@;
    let mut engine_list: Vec<EngineInfo> = Vec::new();
    let mut j: usize = 0;
    while j < groups.document.len()
        invariant
            j <= groups.document.len(),
            plain == groups@,
            engine_list.len() == j,
            forall|k: int| 0 <= k < j ==> (#[trigger] engine_list[k])@ == engine_of(plain[k]),
        decreases groups.document.len() - j,
    {
        engine_list.push(engine_from(&groups.document[j]));
        j += 1;
    }
    assert(infos_of(engine_list@) =~= plain.map_values(|g: JsonView| engine_of(g)));
    Ok(engine_list)
}

/// The versions that the manifest offers, by major bucket: buckets in the
/// order in which they were first met, and in each the tags in the order of
/// the releases.
pub fn list_remote_engines(manifest: Option<&Json>, os: OS, arch: Architecture) -> (engine_list:
    Result<Vec<EngineInfo>, ManifestError>)
    ensures
        result_infos(engine_list) == match loaded(option_json(manifest), tag_field(), os, arch) {
            Ok(releases) => remote_engines(releases),
            Err(e) => Err(e),
        },
{
    let fields: [&'static str; 1] = ["tag_name"];
    assert(names_of(fields@) =~= tag_field());
    match load_remote_engines_handler(manifest, fields.as_slice(), os, arch) {
        Ok(releases) => group_remote_engines(&releases),
        Err(e) => Err(e),
    }
}

/// The fields of an asset that are listed.
pub open spec fn listed_fields() -> Seq<Seq<char>> {
    seq!["name"@, "size"@, "updated_at"@]
}

/// Whether an asset is listed: checksum lists and other texts are not.
pub open spec fn is_listed(asset: JsonView) -> bool {
    match text_under(asset, "name"@) {
        Some(name) => !ends_with(name, ".txt"@),
        None => true,
    }
}

/// The assets as they are listed: cut down to name, size and date, without
/// the texts, in order.
pub open spec fn listing(assets: Seq<JsonView>) -> Seq<JsonView> {
    assets.map_values(|a: JsonView| projected_doc(a, listed_fields())).filter(
        |a: JsonView| is_listed(a),
    )
}

/// The assets as they are listed.
pub fn listed_assets(assets: &DocumentHandler) -> (list: Result<Vec<Json>, ManifestError>)
    ensures
        match list {
            Ok(l) => views_of(l@) == listing(assets@) && forall|i: int|
                0 <= i < assets@.len() ==> (#[trigger] assets@[i]) is Object,
            Err(e) => e == ManifestError::Malformed && exists|i: int|
                0 <= i < assets@.len() && !((#[trigger] assets@[i]) is Object),
        },
{
    let fields: [&'static str; 3] = ["name", "size", "updated_at"];
    assert(names_of(fields@) =~= listed_fields());
    let cut = match assets.get_specific_fields(fields.as_slice()) {
        Ok(cut) => cut,
        Err(_) => {
            return Err(ManifestError::Malformed);
        },
    };
    let ghost pred = |a: JsonView| is_listed(a);
    let no_text = |asset: &Json| -> (keep: bool)
        ensures
            keep == is_listed(asset@),
        {
            match text_of(asset, "name") {
                Some(name) => !has_suffix(name, ".txt"),
                None => true,
            }
        };
    let kept = cut.flitter(no_text).unwrap();
    proof {
        lemma_flitter_is_filter(no_text, cut.document@, kept@, pred);
    }
    Ok(kept.document)
}

/// The assets that the manifest lists for a version and that the local
/// platform can use, as they are listed: name, size and date of each,
/// without the texts.
pub fn list_remote_engine_assets(
    manifest: Option<&Json>,
    version: &str,
    os: OS,
    arch: Architecture,
) -> (list: Result<Vec<Json>, ManifestError>)
    ensures
        match assets_for(option_json(manifest), version@, os, arch) {
            Ok(assets) => match list {
                Ok(l) => views_of(l@) == listing(assets) && forall|i: int|
                    0 <= i < assets.len() ==> (#[trigger] assets[i]) is Object,
                Err(e) => e == ManifestError::Malformed && exists|i: int|
                    0 <= i < assets.len() && !((#[trigger] assets[i]) is Object),
            },
            Err(e) => list == Err::<Vec<Json>, ManifestError>(e),
        },
{
    match assets_of_version(version, manifest, os, arch) {
        Ok(assets) => listed_assets(&assets),
        Err(e) => Err(e),
    }
}

} // verus!
