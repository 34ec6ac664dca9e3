//! The document engine: queries and transforms over an ordered sequence of
//! JSON records. Every operation keeps the order of the records unless it
//! says otherwise.

use crate::json::{
    copy_values, has_name, index_of_name, lemma_array_view, lemma_index_of_name_bounds,
    lemma_object_view, lookup, same_json, views_of, with_member, without_member, Json, JsonView,
    Member, Record, RecordView,
};
use crate::order::{
    insert_by, lemma_insertion_point_is, lemma_sort_by_ordered, lemma_sort_by_permutes, ordered_by,
    sort_by, total, transitive,
};
use crate::text;
use crate::text::{chars_of, equal, le_chars, lemma_lex_le_total, lemma_lex_le_transitive, lex_le};
use vstd::prelude::*;

verus! {

/// Why an operation of the document engine failed.
#[derive(Debug, Clone, Copy, PartialEq, Eq, Structural)]
pub enum DocError {
    /// The loaded document is not an array of records.
    NotAnArray,
    /// A record is not a key-value mapping.
    NotAnObject,
    /// A record lacks the key that the operation needs.
    KeyNotFound,
    /// A record holds something else than text under the key.
    KeyNotText,
}

impl DocError {
    /// The error in words.
    pub fn message(&self) -> (text: &'static str)
        ensures
            text@ == self.words(),
    {
        match self {
            DocError::NotAnArray => "Document is not an array",
            DocError::NotAnObject => "Array element is not an object",
            DocError::KeyNotFound => "Key not found in object",
            DocError::KeyNotText => "Key is not a string",
        }
    }

    /// What the error says, in words.
    pub open spec fn words(&self) -> Seq<char> {
        match self {
            DocError::NotAnArray => "Document is not an array"@,
            DocError::NotAnObject => "Array element is not an object"@,
            DocError::KeyNotFound => "Key not found in object"@,
            DocError::KeyNotText => "Key is not a string"@,
        }
    }
}

/// An ordered sequence of JSON records with the operations of the engine.
#[derive(Debug, Clone, PartialEq)]
pub struct DocumentHandler {
    pub document: Vec<Json>,
}

impl View for DocumentHandler {
    type V = Seq<JsonView>;

    open spec fn view(&self) -> Seq<JsonView> {
        views_of(self.document@)
    }
}

/// The items of `s` whose mark in `keep` is set, in order.
pub open spec fn pick<A>(s: Seq<A>, keep: Seq<bool>) -> Seq<A>
    decreases s.len(),
{
    if s.len() == 0 || keep.len() != s.len() {
        Seq::empty()
    } else if keep.last() {
        pick(s.drop_last(), keep.drop_last()).push(s.last())
    } else {
        pick(s.drop_last(), keep.drop_last())
    }
}

/// Marks that agree with a predicate pick what the predicate filters.
pub proof fn lemma_pick_is_filter<A>(s: Seq<A>, keep: Seq<bool>, pred: spec_fn(A) -> bool)
    requires
        keep.len() == s.len(),
        forall|i: int| 0 <= i < s.len() ==> keep[i] == pred(s[i]),
    ensures
        pick(s, keep) == s.filter(pred),
    decreases s.len(),
{
    reveal(Seq::filter);
    if s.len() > 0 {
        lemma_pick_is_filter(s.drop_last(), keep.drop_last(), pred);
    } else {
        assert(pick(s, keep) =~= s.filter(pred));
    }
}

/// Whether `keep` holds an answer of `condition` for every one of the
/// values.
pub open spec fn decides<F: Fn(&Json) -> bool>(condition: F, docs: Seq<Json>, keep: Seq<bool>) -> bool {
    &&& keep.len() == docs.len()
    &&& forall|i: int|
        0 <= i < docs.len() ==> call_ensures(condition, (&docs[i],), #[trigger] keep[i])
}

/// Where the condition answers every value as `pred` answers its content,
/// the values it keeps are those that `pred` filters.
pub proof fn lemma_flitter_is_filter<F: Fn(&Json) -> bool>(
    condition: F,
    docs: Seq<Json>,
    kept: Seq<JsonView>,
    pred: spec_fn(JsonView) -> bool,
)
    requires
        forall|i: int, r: bool|
            0 <= i < docs.len() && #[trigger] call_ensures(condition, (&docs[i],), r) ==> r == pred(
                docs[i]@,
            ),
        exists|keep: Seq<bool>| decides(condition, docs, keep) && kept == pick(views_of(docs), keep),
    ensures
        kept == views_of(docs).filter(pred),
{
    let keep = choose|keep: Seq<bool>|
        decides(condition, docs, keep) && kept == pick(views_of(docs), keep);
    assert forall|i: int| 0 <= i < docs.len() implies keep[i] == pred(views_of(docs)[i]) by {
        assert(call_ensures(condition, (&docs[i],), keep[i]));
    }
    lemma_pick_is_filter(views_of(docs), keep, pred);
}

/// Whether a record holds `value` under `key`.
pub open spec fn holds(doc: JsonView, key: Seq<char>, value: JsonView) -> bool {
    doc matches JsonView::Object(r) && lookup(r, key) == Some(value)
}

/// The text that a record holds under `key`. There is none where the key is
/// missing, where it holds something else, or where the item is no record.
pub open spec fn text_under(doc: JsonView, key: Seq<char>) -> Option<Seq<char>> {
    match doc {
        JsonView::Object(r) => match lookup(r, key) {
            Some(JsonView::Text(s)) => Some(s),
            _ => None,
        },
        _ => None,
    }
}

/// Whether a record holds under `key` something that is not text.
pub open spec fn foreign_under(doc: JsonView, key: Seq<char>) -> bool {
    doc matches JsonView::Object(r) && lookup(r, key) matches Some(v) && !(v is Text)
}

/// The order of sort keys: texts in dictionary order, and a missing key
/// behind every text.
pub open spec fn key_le(a: Option<Seq<char>>, b: Option<Seq<char>>) -> bool {
    match (a, b) {
        (Some(x), Some(y)) => lex_le(x, y),
        (Some(_), None) => true,
        (None, Some(_)) => false,
        (None, None) => true,
    }
}

/// The order of records by the text they hold under `key`.
pub open spec fn by_key(key: Seq<char>) -> spec_fn(JsonView, JsonView) -> bool {
    |a: JsonView, b: JsonView| key_le(text_under(a, key), text_under(b, key))
}

/// The records sorted by the text under `key`: records without the key come
/// last and ties keep their order; where `reverse` is set, the whole sorted
/// sequence is turned around.
pub open spec fn sorted_docs(docs: Seq<JsonView>, key: Seq<char>, reverse: bool) -> Seq<JsonView> {
    let sorted = sort_by(docs, by_key(key));
    if reverse {
        sorted.reverse()
    } else {
        sorted
    }
}

/// The order by a key compares any two records, one way or the other, and
/// is transitive.
pub proof fn lemma_by_key_is_an_order(key: Seq<char>)
    ensures
        total(by_key(key)),
        transitive(by_key(key)),
{
    let le = by_key(key);
    assert forall|a: JsonView, b: JsonView| #[trigger] le(a, b) || #[trigger] le(b, a) by {
        match (text_under(a, key), text_under(b, key)) {
            (Some(x), Some(y)) => {
                lemma_lex_le_total(x, y);
            },
            _ => {},
        }
    }
    assert forall|a: JsonView, b: JsonView, c: JsonView| #[trigger]
        le(a, b) && #[trigger] le(b, c) implies le(a, c) by {
        match (text_under(a, key), text_under(b, key), text_under(c, key)) {
            (Some(x), Some(y), Some(z)) => {
                lemma_lex_le_transitive(x, y, z);
            },
            _ => {},
        }
    }
}

/// Sorted records stand in the order of the key, records without the key
/// last, and they are the records that were there, each as often.
pub proof fn lemma_sorted_docs_are_ordered(docs: Seq<JsonView>, key: Seq<char>)
    ensures
        ordered_by(sorted_docs(docs, key, false), by_key(key)),
        sorted_docs(docs, key, false).to_multiset() == docs.to_multiset(),
        sorted_docs(docs, key, true) == sorted_docs(docs, key, false).reverse(),
{
    lemma_by_key_is_an_order(key);
    lemma_sort_by_ordered(docs, by_key(key));
    lemma_sort_by_permutes(docs, by_key(key));
}

/// What an optional vector of characters holds.
pub open spec fn option_text(k: Option<Vec<char>>) -> Option<Seq<char>> {
    match k {
        Some(v) => Some(v@),
        None => None,
    }
}

/// The text that a record holds under `key`.
pub fn text_of<'a>(doc: &'a Json, key: &str) -> (text: Option<&'a str>)
    ensures
        match text {
            Some(t) => text_under(doc@, key@) == Some(t@),
            None => text_under(doc@, key@) is None,
        },
{
    match doc.as_object() {
        Some(rec) => match rec.get(key) {
            Some(value) => value.as_str(),
            None => None,
        },
        None => None,
    }
}

/// The sort key of one record.
fn key_of(doc: &Json, key: &str) -> (found: Result<Option<Vec<char>>, DocError>)
    ensures
        match found {
            Ok(k) => !foreign_under(doc@, key@) && option_text(k) == text_under(doc@, key@),
            Err(e) => e == DocError::KeyNotText && foreign_under(doc@, key@),
        },
{
    match doc.as_object() {
        Some(rec) => match rec.get(key) {
            Some(value) => match value.as_str() {
                Some(s) => Ok(Some(chars_of(s))),
                None => Err(DocError::KeyNotText),
            },
            None => Ok(None),
        },
        None => Ok(None),
    }
}

/// Whether one sort key comes before another, or equals it.
fn key_le_exec(a: &Option<Vec<char>>, b: &Option<Vec<char>>) -> (le: bool)
    ensures
        le == key_le(option_text(*a), option_text(*b)),
{
    match (a, b) {
        (Some(x), Some(y)) => le_chars(x, y),
        (Some(_), None) => true,
        (None, Some(_)) => false,
        (None, None) => true,
    }
}

/// The values of a vector in the opposite order.
pub fn reversed(items: Vec<Json>) -> (out: Vec<Json>)
    ensures
        views_of(out@) == views_of(items@).reverse(),
{
    let mut rest = items;
    let mut out: Vec<Json> = Vec::new();
    let ghost n = items.len() as int;
    while rest.len() > 0
        invariant
            rest.len() + out.len() == n,
            n == items.len(),
            forall|k: int| 0 <= k < rest.len() ==> rest[k] == items[k],
            forall|k: int| 0 <= k < out.len() ==> out[k] == items[n - 1 - k],
        decreases rest.len(),
    {
        let x = rest.pop().unwrap();
        out.push(x);
    }
    assert(views_of(out@) =~= views_of(items@).reverse());
    out
}

/// The items of the array that a group holds under `name`; none where it
/// holds no array there.
pub open spec fn items_under(group: RecordView, name: Seq<char>) -> Seq<JsonView> {
    match lookup(group, name) {
        Some(JsonView::Array(items)) => items,
        _ => Seq::empty(),
    }
}

/// The group after one member of a source record was taken in: the value
/// goes to the end of the array under the member's name. The grouping key is
/// passed over, and so is a name under which the group holds no array.
pub open spec fn absorb_member(
    group: RecordView,
    name: Seq<char>,
    value: JsonView,
    key: Seq<char>,
) -> RecordView {
    if name == key {
        group
    } else {
        match lookup(group, name) {
            Some(JsonView::Array(items)) => with_member(
                group,
                name,
                JsonView::Array(items.push(value)),
            ),
            Some(_) => group,
            None => with_member(group, name, JsonView::Array(seq![value])),
        }
    }
}

/// The group after the members of a source record were taken in, in order.
pub open spec fn absorb(group: RecordView, rec: RecordView, key: Seq<char>) -> RecordView
    decreases rec.len(),
{
    if rec.len() == 0 {
        group
    } else {
        absorb_member(absorb(group, rec.drop_last(), key), rec.last().0, rec.last().1, key)
    }
}

/// The offset of the first group whose key is the text `k`, or the number of
/// groups where there is none.
pub open spec fn group_index(groups: Seq<JsonView>, key: Seq<char>, k: Seq<char>) -> nat
    decreases groups.len(),
{
    if groups.len() == 0 {
        0
    } else if text_under(groups[0], key) == Some(k) {
        0
    } else {
        1 + group_index(groups.skip(1), key, k)
    }
}

/// The record of a group; empty where the item is no record.
pub open spec fn record_of(doc: JsonView) -> RecordView {
    match doc {
        JsonView::Object(r) => r,
        _ => Seq::empty(),
    }
}

/// The groups after a source record with key text `k` was taken in: into the
/// group of that key, or into a new last group.
pub open spec fn add_record(
    groups: Seq<JsonView>,
    rec: RecordView,
    key: Seq<char>,
    k: Seq<char>,
) -> Seq<JsonView> {
    let at = group_index(groups, key, k) as int;
    if at < groups.len() {
        groups.update(at, JsonView::Object(absorb(record_of(groups[at]), rec, key)))
    } else {
        groups.push(JsonView::Object(absorb(seq![(key, JsonView::Text(k))], rec, key)))
    }
}

/// The records grouped by the text under `key`. Each group is a record that
/// holds the key and, for every other name met in its source records, the
/// array of the values under that name in the order in which they were met.
/// Groups stand in the order in which their keys were first met. The first
/// record that is no record, lacks the key, or holds no text under it, fails
/// the whole.
pub open spec fn grouped(docs: Seq<JsonView>, key: Seq<char>) -> Result<Seq<JsonView>, DocError>
    decreases docs.len(),
{
    if docs.len() == 0 {
        Ok(Seq::empty())
    } else {
        match grouped(docs.drop_last(), key) {
            Err(e) => Err(e),
            Ok(groups) => match docs.last() {
                JsonView::Object(rec) => match lookup(rec, key) {
                    Some(JsonView::Text(k)) => Ok(add_record(groups, rec, key, k)),
                    Some(_) => Err(DocError::KeyNotText),
                    None => Err(DocError::KeyNotFound),
                },
                _ => Err(DocError::NotAnObject),
            },
        }
    }
}

/// The first `n` groups have another key, and the next, if there is one, has
/// the key `k`: then `n` is the offset of the group of `k`.
pub proof fn lemma_group_index_is(groups: Seq<JsonView>, key: Seq<char>, k: Seq<char>, n: int)
    requires
        0 <= n <= groups.len(),
        forall|j: int| 0 <= j < n ==> text_under(#[trigger] groups[j], key) != Some(k),
        n < groups.len() ==> text_under(groups[n], key) == Some(k),
    ensures
        group_index(groups, key, k) == n,
    decreases n,
{
    if n > 0 {
        assert(text_under(groups[0], key) != Some(k));
        let rest = groups.skip(1);
        assert forall|j: int| 0 <= j < n - 1 implies text_under(#[trigger] rest[j], key) != Some(
            k,
        ) by {
            assert(rest[j] == groups[j + 1]);
        }
        if n < groups.len() {
            assert(rest[n - 1] == groups[n]);
        }
        lemma_group_index_is(rest, key, k, n - 1);
    }
}

/// Takes one member of a source record into a group.
fn absorb_into(group: &mut Record, name: &String, value: &Json, key: &str)
    ensures
        final(group)@ == absorb_member(old(group)@, name@, value@, key@),
{
    if equal(name.as_str(), key) {
        return ;
    }
    let at = group.position(name.as_str());
    proof {
        lemma_index_of_name_bounds(old(group)@, name@);
    }
    if at < group.members.len() {
        let held = group.members.remove(at);
        assert(held@ == old(group)@[at as int]);
        match held.value {
            Json::Array(items) => {
                let mut items = items;
                let ghost before = views_of(items@);
                proof {
                    lemma_array_view(items);
                }
                items.push(value.clone());
                proof {
                    lemma_array_view(items);
                    assert(views_of(items@) =~= before.push(value@));
                }
                group.members.insert(at, Member { name: held.name, value: Json::Array(items) });
                assert(group@ =~= old(group)@.update(
                    at as int,
                    (name@, JsonView::Array(before.push(value@))),
                ));
            },
            other => {
                group.members.insert(at, Member { name: held.name, value: other });
                assert(group@ =~= old(group)@);
            },
        }
    } else {
        let mut items: Vec<Json> = Vec::new();
        items.push(value.clone());
        proof {
            lemma_array_view(items);
            assert(views_of(items@) =~= seq![value@]);
        }
        group.members.push(Member { name: name.clone(), value: Json::Array(items) });
        assert(group@ =~= old(group)@.push((name@, JsonView::Array(seq![value@]))));
    }
}

/// Takes the members of a source record into a group, in order.
fn absorb_record(group: &mut Record, rec: &Record, key: &str)
    ensures
        final(group)@ == absorb(old(group)@, rec@, key@),
{
    let mut i: usize = 0;
    proof {
        assert(rec@.take(0) =~= Seq::<(Seq<char>, JsonView)>::empty());
    }
    while i < rec.members.len()
        invariant
            i <= rec.members.len(),
            group@ == absorb(old(group)@, rec@.take(i as int), key@),
        decreases rec.members.len() - i,
    {
        proof {
            let upto = rec@.take(i + 1);
            assert(upto.drop_last() =~= rec@.take(i as int));
            assert(upto.last() == rec.members[i as int]@);
        }
        absorb_into(group, &rec.members[i].name, &rec.members[i].value, key);
        i += 1;
    }
    proof {
        assert(rec@.take(rec.members.len() as int) =~= rec@);
    }
}

/// Whether the key of a group is the text `k`.
fn has_group_key(group: &Json, key: &str, k: &str) -> (same: bool)
    ensures
        same == (text_under(group@, key@) == Some(k@)),
{
    match group.as_object() {
        Some(rec) => match rec.get(key) {
            Some(value) => match value.as_str() {
                Some(s) => equal(s, k),
                None => false,
            },
            None => false,
        },
        None => false,
    }
}

/// Groups the records by the text under `key`.
fn group_records(docs: &Vec<Json>, key: &str) -> (out: Result<Vec<Json>, DocError>)
    ensures
        match out {
            Ok(groups) => grouped(views_of(docs@), key@) == Ok::<Seq<JsonView>, DocError>(
                views_of(groups@),
            ),
            Err(e) => grouped(views_of(docs@), key@) == Err::<Seq<JsonView>, DocError>(e),
        },
{
    let ghost all = views_of(docs@);
    let mut groups: Vec<Json> = Vec::new();
    let mut i: usize = 0;
    proof {
        assert(all.take(0) =~= Seq::<JsonView>::empty());
        assert(views_of(groups@) =~= Seq::<JsonView>::empty());
    }
    while i < docs.len()
        invariant
            i <= docs.len(),
            all == views_of(docs@),
            grouped(all.take(i as int), key@) == Ok::<Seq<JsonView>, DocError>(views_of(groups@)),
        decreases docs.len() - i,
    {
        proof {
            let upto = all.take(i + 1);
            assert(upto.drop_last() =~= all.take(i as int));
            assert(upto.last() == docs[i as int]@);
            lemma_grouped_prefix_error(all, key@, i + 1);
        }
        let rec = match docs[i].as_object() {
            Some(rec) => rec,
            None => {
                return Err(DocError::NotAnObject);
            },
        };
        let k = match rec.get(key) {
            Some(value) => match value.as_str() {
                Some(k) => k,
                None => {
                    return Err(DocError::KeyNotText);
                },
            },
            None => {
                return Err(DocError::KeyNotFound);
            },
        };
        let ghost before = views_of(groups@);
        let mut at: usize = 0;
        while at < groups.len() && !has_group_key(&groups[at], key, k)
            invariant
                at <= groups.len(),
                forall|j: int|
                    0 <= j < at ==> text_under(#[trigger] views_of(groups@)[j], key@) != Some(k@),
            decreases groups.len() - at,
        {
            at += 1;
        }
        proof {
            lemma_group_index_is(before, key@, k@, at as int);
        }
        if at < groups.len() {
            let held = groups.remove(at);
            assert(held@ == before[at as int]);
            match held {
                Json::Object(group) => {
                    let mut group = group;
                    proof {
                        lemma_object_view(group);
                    }
                    absorb_record(&mut group, rec, key);
                    proof {
                        lemma_object_view(group);
                    }
                    groups.insert(at, Json::Object(group));
                    assert(views_of(groups@) =~= add_record(before, rec@, key@, k@));
                },
                other => {
                    groups.insert(at, other);
                    assert(false);
                },
            }
        } else {
            let mut group = Record::new();
            group.insert(text::string_of(&chars_of(key)), Json::Text(text::string_of(&chars_of(k))));
            assert(group@ =~= seq![(key@, JsonView::Text(k@))]);
            absorb_record(&mut group, rec, key);
            proof {
                lemma_object_view(group);
            }
            groups.push(Json::Object(group));
            assert(views_of(groups@) =~= add_record(before, rec@, key@, k@));
        }
        i += 1;
    }
    proof {
        assert(all.take(docs.len() as int) =~= all);
    }
    Ok(groups)
}

/// Where grouping fails on the first `n` records, it fails in the same way
/// on all of them.
pub proof fn lemma_grouped_prefix_error(docs: Seq<JsonView>, key: Seq<char>, n: int)
    requires
        0 <= n <= docs.len(),
    ensures
        grouped(docs.take(n), key) is Err ==> grouped(docs, key) == grouped(docs.take(n), key),
    decreases docs.len() - n,
{
    if n < docs.len() {
        lemma_grouped_prefix_error(docs, key, n + 1);
        assert(docs.take(n + 1).drop_last() =~= docs.take(n));
    } else {
        assert(docs.take(n) =~= docs);
    }
}

/// The texts that a slice of names holds.
pub open spec fn names_of(fields: Seq<&str>) -> Seq<Seq<char>> {
    fields.map_values(|s: &str| s@)
}

/// The record made of the listed fields of `rec`, in the order of the list.
/// A field that `rec` lacks is left out.
pub open spec fn projected(rec: RecordView, fields: Seq<Seq<char>>) -> RecordView
    decreases fields.len(),
{
    if fields.len() == 0 {
        Seq::empty()
    } else {
        let head = projected(rec, fields.drop_last());
        match lookup(rec, fields.last()) {
            Some(v) => with_member(head, fields.last(), v),
            None => head,
        }
    }
}

/// The item as a record of the listed fields. What is no record gives the
/// empty record.
pub open spec fn projected_doc(doc: JsonView, fields: Seq<Seq<char>>) -> JsonView {
    JsonView::Object(projected(record_of(doc), fields))
}

/// The record with the member `from` renamed to `to`. Its value replaces
/// what the record held under `to` before.
pub open spec fn rename_one(rec: RecordView, from: Seq<char>, to: Seq<char>) -> RecordView {
    match lookup(rec, from) {
        Some(v) => with_member(without_member(rec, from), to, v),
        None => rec,
    }
}

/// The record after the renamings of `pairs`, each applied in turn.
pub open spec fn renamed(rec: RecordView, pairs: Seq<(Seq<char>, Seq<char>)>) -> RecordView
    decreases pairs.len(),
{
    if pairs.len() == 0 {
        rec
    } else {
        rename_one(renamed(rec, pairs.drop_last()), pairs.last().0, pairs.last().1)
    }
}

/// The item with its members renamed. What is no record stays as it is.
pub open spec fn renamed_doc(doc: JsonView, pairs: Seq<(Seq<char>, Seq<char>)>) -> JsonView {
    match doc {
        JsonView::Object(r) => JsonView::Object(renamed(r, pairs)),
        other => other,
    }
}

/// The pairs of texts that a list of renamings holds.
pub open spec fn pairs_of(name_map: Seq<(String, String)>) -> Seq<(Seq<char>, Seq<char>)> {
    name_map.map_values(|p: (String, String)| (p.0@, p.1@))
}

/// Whether `after` is `before` with the value under `key` replaced by what
/// `f` made of it. An item without the key, or one that is no record, stays
/// as it is.
pub open spec fn applied<F: Fn(Json) -> Json>(
    f: F,
    key: Seq<char>,
    before: JsonView,
    after: JsonView,
) -> bool {
    match before {
        JsonView::Object(r) => if has_name(r, key) {
            exists|input: Json, output: Json|
                {
                    &&& lookup(r, key) == Some(input@)
                    &&& call_ensures(f, (input,), output)
                    &&& after == JsonView::Object(
                        r.update(index_of_name(r, key) as int, (key, output@)),
                    )
                }
        } else {
            after == before
        },
        _ => after == before,
    }
}

/// Whether `after` is what `f` made of a value with the content `before`.
pub open spec fn mapped<F: Fn(Json) -> Json>(f: F, before: JsonView, after: Json) -> bool {
    exists|input: Json| input@ == before && call_ensures(f, (input,), after)
}

/// Whether `after` is `before` with every array that stands under another
/// name than `key` replaced by what `f` made of it.
pub open spec fn aggregated_group<F: Fn(Vec<Json>) -> Vec<Json>>(
    f: F,
    key: Seq<char>,
    before: RecordView,
    after: RecordView,
) -> bool {
    &&& after.len() == before.len()
    &&& forall|j: int|
        0 <= j < before.len() ==> {
            &&& (#[trigger] after[j]).0 == before[j].0
            &&& match before[j].1 {
                JsonView::Array(items) => if before[j].0 == key {
                    after[j].1 == before[j].1
                } else {
                    exists|input: Vec<Json>, output: Vec<Json>|
                        {
                            &&& views_of(input@) == items
                            &&& call_ensures(f, (input,), output)
                            &&& after[j].1 == JsonView::Array(views_of(output@))
                        }
                },
                _ => after[j].1 == before[j].1,
            }
        }
}

/// Whether `after` holds the groups of `before`, each aggregated by `f`.
pub open spec fn aggregated<F: Fn(Vec<Json>) -> Vec<Json>>(
    f: F,
    key: Seq<char>,
    before: Seq<JsonView>,
    after: Seq<JsonView>,
) -> bool {
    &&& after.len() == before.len()
    &&& forall|i: int|
        0 <= i < before.len() ==> match before[i] {
            JsonView::Object(b) => (#[trigger] after[i]) matches JsonView::Object(a)
                && aggregated_group(f, key, b, a),
            other => after[i] == other,
        }
}

/// Groups aggregated by a function that hands its argument back are the
/// groups themselves.
pub proof fn lemma_aggregated_by_identity<F: Fn(Vec<Json>) -> Vec<Json>>(
    f: F,
    key: Seq<char>,
    before: Seq<JsonView>,
    after: Seq<JsonView>,
)
    requires
        aggregated(f, key, before, after),
        forall|input: Vec<Json>, output: Vec<Json>| #[trigger]
            call_ensures(f, (input,), output) ==> output == input,
    ensures
        after == before,
{
    assert forall|i: int| 0 <= i < before.len() implies after[i] == before[i] by {
        match before[i] {
            JsonView::Object(b) => {
                let a = after[i]->Object_0;
                assert(aggregated_group(f, key, b, a));
                assert forall|j: int| 0 <= j < b.len() implies a[j] == b[j] by {
                    assert(a[j].0 == b[j].0);
                }
                assert(a =~= b);
            },
            _ => {},
        }
    }
    assert(after =~= before);
}

/// The listed fields of a record, in the order of the list.
pub fn project_record(rec: &Record, fields: &[&str]) -> (out: Record)
    ensures
        out@ == projected(rec@, names_of(fields@)),
{
    let ghost names = names_of(fields@);
    let mut out = Record::new();
    let mut i: usize = 0;
    proof {
        assert(names.take(0) =~= Seq::<Seq<char>>::empty());
    }
    while i < fields.len()
        invariant
            i <= fields.len(),
            names == names_of(fields@),
            out@ == projected(rec@, names.take(i as int)),
        decreases fields.len() - i,
    {
        proof {
            let upto = names.take(i + 1);
            assert(upto.drop_last() =~= names.take(i as int));
            assert(upto.last() == fields[i as int]@);
        }
        match rec.get(fields[i]) {
            Some(value) => {
                out.insert(fields[i].to_owned(), value.clone());
            },
            None => {},
        }
        i += 1;
    }
    proof {
        assert(names.take(fields.len() as int) =~= names);
    }
    out
}

/// A record after the renamings of `name_map`, each applied in turn.
fn rename_record(rec: Record, name_map: &Vec<(String, String)>) -> (out: Record)
    ensures
        out@ == renamed(rec@, pairs_of(name_map@)),
{
    let ghost pairs = pairs_of(name_map@);
    let ghost start = rec@;
    let mut rec = rec;
    let mut i: usize = 0;
    proof {
        assert(pairs.take(0) =~= Seq::<(Seq<char>, Seq<char>)>::empty());
    }
    while i < name_map.len()
        invariant
            i <= name_map.len(),
            pairs == pairs_of(name_map@),
            rec@ == renamed(start, pairs.take(i as int)),
        decreases name_map.len() - i,
    {
        proof {
            let upto = pairs.take(i + 1);
            assert(upto.drop_last() =~= pairs.take(i as int));
            assert(upto.last() == (name_map[i as int].0@, name_map[i as int].1@));
        }
        match rec.remove(name_map[i].0.as_str()) {
            Some(value) => {
                rec.insert(name_map[i].1.clone(), value);
            },
            None => {},
        }
        i += 1;
    }
    proof {
        assert(pairs.take(name_map.len() as int) =~= pairs);
    }
    rec
}

/// A group with every array under another name than `key` handed to `f`.
fn aggregate_group<F: Fn(Vec<Json>) -> Vec<Json>>(group: &Record, key: &str, f: &F) -> (out:
    Record)
    requires
        forall|v: Vec<Json>| call_requires(*f, (v,)),
    ensures
        aggregated_group(*f, key@, group@, out@),
{
    let mut members: Vec<Member> = Vec::new();
    let mut j: usize = 0;
    while j < group.members.len()
        invariant
            j <= group.members.len(),
            members.len() == j,
            forall|v: Vec<Json>| call_requires(*f, (v,)),
            forall|k: int|
                0 <= k < j ==> {
                    &&& (#[trigger] members[k])@.0 == group@[k].0
                    &&& match group@[k].1 {
                        JsonView::Array(items) => if group@[k].0 == key@ {
                            members[k]@.1 == group@[k].1
                        } else {
                            exists|input: Vec<Json>, output: Vec<Json>|
                                {
                                    &&& views_of(input@) == items
                                    &&& call_ensures(*f, (input,), output)
                                    &&& members[k]@.1 == JsonView::Array(views_of(output@))
                                }
                        },
                        _ => members[k]@.1 == group@[k].1,
                    }
                },
        decreases group.members.len() - j,
    {
        let m = &group.members[j];
        let value = if equal(m.name.as_str(), key) {
            m.value.clone()
        } else {
            match m.value.as_array() {
                Some(items) => {
                    let input = copy_values(items);
                    let ghost given = input;
                    let output = f(input);
                    proof {
                        lemma_array_view(output);
                        assert(views_of(given@) == views_of(items@));
                        assert(call_ensures(*f, (given,), output));
                    }
                    Json::Array(output)
                },
                None => m.value.clone(),
            }
        };
        members.push(Member { name: m.name.clone(), value });
        j += 1;
    }
    let out = Record { members };
    proof {
        assert forall|k: int| 0 <= k < group@.len() implies {
            &&& (#[trigger] out@[k]).0 == group@[k].0
            &&& match group@[k].1 {
                JsonView::Array(items) => if group@[k].0 == key@ {
                    out@[k].1 == group@[k].1
                } else {
                    exists|input: Vec<Json>, output: Vec<Json>|
                        {
                            &&& views_of(input@) == items
                            &&& call_ensures(*f, (input,), output)
                            &&& out@[k].1 == JsonView::Array(views_of(output@))
                        }
                },
                _ => out@[k].1 == group@[k].1,
            }
        } by {
            assert(out@[k] == members[k]@);
        }
    }
    out
}

impl DocumentHandler {
    /// A handler over the given records.
    pub fn new(document: Vec<Json>) -> (handler: Self)
        ensures
            handler.document == document,
    {
        Self { document }
    }

    /// A handler over the items of a parsed JSON array.
    pub fn load_data(value: Json) -> (loaded: Result<Self, DocError>)
        ensures
            match loaded {
                Ok(handler) => value@ == JsonView::Array(handler@),
                Err(e) => e == DocError::NotAnArray && !(value@ is Array),
            },
    {
        match value {
            Json::Array(items) => {
                proof {
                    lemma_array_view(items);
                }
                Ok(Self { document: items })
            },
            _ => Err(DocError::NotAnArray),
        }
    }

    /// The records that satisfy `condition`, in order.
    pub fn flitter<F: Fn(&Json) -> bool>(&self, condition: F) -> (kept: Result<Self, DocError>)
        requires
            forall|i: int|
                0 <= i < self.document.len() ==> call_requires(condition, (&self.document[i],)),
        ensures
            kept is Ok,
            exists|keep: Seq<bool>|
                decides(condition, self.document@, keep) && kept->Ok_0@ == pick(self@, keep),
    {
        let mut out: Vec<Json> = Vec::new();
        let ghost mut keep: Seq<bool> = Seq::empty();
        let mut i: usize = 0;
        proof {
            assert(views_of(out@) =~= pick(self@.take(0), keep));
        }
        while i < self.document.len()
            invariant
                i <= self.document.len(),
                keep.len() == i,
                forall|k: int|
                    0 <= k < self.document.len() ==> call_requires(
                        condition,
                        (&self.document[k],),
                    ),
                forall|k: int|
                    0 <= k < i ==> call_ensures(condition, (&self.document[k],), #[trigger] keep[k]),
                views_of(out@) == pick(self@.take(i as int), keep),
            decreases self.document.len() - i,
        {
            let ghost before = views_of(out@);
            let ghost marks = keep;
            let take = condition(&self.document[i]);
            if take {
                out.push(self.document[i].clone());
            }
            proof {
                keep = marks.push(take);
                let s = self@.take(i + 1);
                assert(s.drop_last() =~= self@.take(i as int));
                assert(keep.drop_last() =~= marks);
                assert(s.last() == self.document[i as int]@);
                if take {
                    assert(views_of(out@) =~= before.push(self.document[i as int]@));
                } else {
                    assert(views_of(out@) =~= before);
                }
            }
            i += 1;
        }
        proof {
            assert(self@.take(self.document.len() as int) =~= self@);
            assert(decides(condition, self.document@, keep));
        }
        Ok(Self { document: out })
    }

    /// The records that hold `value` under `key`; every record where either
    /// is left out.
    pub fn query(&self, key: Option<&str>, value: Option<&Json>) -> (found: Result<
        Self,
        DocError,
    >)
        ensures
            found is Ok,
            found->Ok_0@ == match (key, value) {
                (Some(k), Some(v)) => self@.filter(|doc: JsonView| holds(doc, k@, v@)),
                _ => self@,
            },
    {
        match (key, value) {
            (Some(k), Some(v)) => {
                let ghost pred = |doc: JsonView| holds(doc, k@, v@);
                let matches = |doc: &Json| -> (hit: bool)
                    ensures
                        hit == holds(doc@, k@, v@),
                    {
                        match doc.as_object() {
                            Some(rec) => match rec.get(k) {
                                Some(held) => same_json(held, v),
                                None => false,
                            },
                            None => false,
                        }
                    };
                let found = self.flitter(matches);
                proof {
                    lemma_flitter_is_filter(matches, self.document@, found->Ok_0@, pred);
                }
                found
            },
            _ => {
                let copy = Self { document: copy_values(&self.document) };
                Ok(copy)
            },
        }
    }

    /// Sorts the records by the text they hold under `key`. Records without
    /// the key come last, ties keep their order, and `reverse` turns the
    /// sorted sequence around. Fails, and changes nothing, where a record
    /// holds under `key` something that is not text.
    pub fn sort(&mut self, key: &str, reverse: bool) -> (done: Result<(), DocError>)
        ensures
            match done {
                Ok(_) => {
                    &&& forall|i: int|
                        0 <= i < old(self)@.len() ==> !foreign_under(
                            #[trigger] old(self)@[i],
                            key@,
                        )
                    &&& final(self)@ == sorted_docs(old(self)@, key@, reverse)
                },
                Err(e) => {
                    &&& e == DocError::KeyNotText
                    &&& exists|i: int|
                        0 <= i < old(self)@.len() && foreign_under(#[trigger] old(self)@[i], key@)
                    &&& final(self)@ == old(self)@
                },
            },
    {
        let ghost le = by_key(key@);
        let ghost docs = self@;
        let mut out: Vec<Json> = Vec::new();
        let mut out_keys: Vec<Option<Vec<char>>> = Vec::new();
        let mut i: usize = 0;
        proof {
            assert(views_of(out@) =~= sort_by(docs.take(0), le));
        }
        while i < self.document.len()
            invariant
                i <= self.document.len(),
                *self == *old(self),
                docs == self@,
                le == by_key(key@),
                out.len() == out_keys.len(),
                forall|k: int| 0 <= k < i ==> !foreign_under(#[trigger] docs[k], key@),
                forall|k: int|
                    0 <= k < out.len() ==> option_text(#[trigger] out_keys[k]) == text_under(
                        out[k]@,
                        key@,
                    ),
                views_of(out@) == sort_by(docs.take(i as int), le),
            decreases self.document.len() - i,
        {
            let found = key_of(&self.document[i], key);
            let k = match found {
                Ok(k) => k,
                Err(e) => {
                    assert(foreign_under(docs[i as int], key@));
                    return Err(e);
                },
            };
            let x = self.document[i].clone();
            let ghost sorted = views_of(out@);
            let mut p: usize = out.len();
            while p > 0 && !key_le_exec(&out_keys[p - 1], &k)
                invariant
                    p <= out.len(),
                    out.len() == out_keys.len(),
                    sorted == views_of(out@),
                    le == by_key(key@),
                    option_text(k) == text_under(x@, key@),
                    forall|j: int|
                        0 <= j < out.len() ==> option_text(#[trigger] out_keys[j]) == text_under(
                            out[j]@,
                            key@,
                        ),
                    forall|j: int| p <= j < sorted.len() ==> !le(#[trigger] sorted[j], x@),
                decreases p,
            {
                p -= 1;
            }
            proof {
                if p > 0 {
                    assert(le(sorted[p - 1], x@));
                }
                lemma_insertion_point_is(sorted, x@, le, p as int);
                let upto = docs.take(i + 1);
                assert(upto.drop_last() =~= docs.take(i as int));
                assert(upto.last() == x@);
                assert(sort_by(upto, le) == insert_by(sorted, x@, le));
            }
            out.insert(p, x);
            out_keys.insert(p, k);
            proof {
                assert(views_of(out@) =~= sorted.insert(p as int, x@));
            }
            i += 1;
        }
        proof {
            assert(docs.take(self.document.len() as int) =~= docs);
        }
        if reverse {
            self.document = reversed(out);
        } else {
            self.document = out;
        }
        Ok(())
    }

    /// Renames members of every record: each pair of `name_map` names a
    /// member and its new name, and the pairs are applied in turn. A value
    /// that arrives under a name that is taken replaces what was there.
    pub fn rename(&mut self, name_map: &Vec<(String, String)>) -> (done: Result<(), DocError>)
        ensures
            done is Ok,
            final(self)@ == old(self)@.map_values(
                |doc: JsonView| renamed_doc(doc, pairs_of(name_map@)),
            ),
    {
        let ghost pairs = pairs_of(name_map@);
        let mut out: Vec<Json> = Vec::new();
        let mut i: usize = 0;
        while i < self.document.len()
            invariant
                i <= self.document.len(),
                *self == *old(self),
                pairs == pairs_of(name_map@),
                out.len() == i,
                forall|k: int| 0 <= k < i ==> (#[trigger] out[k])@ == renamed_doc(self@[k], pairs),
            decreases self.document.len() - i,
        {
            let doc = self.document[i].clone();
            let changed = match doc {
                Json::Object(rec) => {
                    proof {
                        lemma_object_view(rec);
                    }
                    let rec = rename_record(rec, name_map);
                    proof {
                        lemma_object_view(rec);
                    }
                    Json::Object(rec)
                },
                other => other,
            };
            out.push(changed);
            i += 1;
        }
        self.document = out;
        proof {
            assert(self@ =~= old(self)@.map_values(|doc: JsonView| renamed_doc(doc, pairs)));
        }
        Ok(())
    }

    /// Takes the records out of the handler and returns each as a record of
    /// the listed fields, in the order of the list. A field that a record
    /// lacks is left out, and what is no record gives the empty record.
    pub fn orderby(&mut self, levels: &[&str]) -> (rebuilt: Result<Vec<Json>, DocError>)
        ensures
            rebuilt is Ok,
            final(self)@ == Seq::<JsonView>::empty(),
            views_of(rebuilt->Ok_0@) == old(self)@.map_values(
                |doc: JsonView| projected_doc(doc, names_of(levels@)),
            ),
    {
        let ghost names = names_of(levels@);
        let mut out: Vec<Json> = Vec::new();
        let mut i: usize = 0;
        while i < self.document.len()
            invariant
                i <= self.document.len(),
                *self == *old(self),
                names == names_of(levels@),
                out.len() == i,
                forall|k: int| 0 <= k < i ==> (#[trigger] out[k])@ == projected_doc(self@[k], names),
            decreases self.document.len() - i,
        {
            let rec = match self.document[i].as_object() {
                Some(rec) => project_record(rec, levels),
                None => {
                    let empty = Record::new();
                    let rec = project_record(&empty, levels);
                    rec
                },
            };
            proof {
                lemma_object_view(rec);
            }
            out.push(Json::Object(rec));
            i += 1;
        }
        self.document = Vec::new();
        proof {
            assert(self@ =~= Seq::<JsonView>::empty());
            assert(views_of(out@) =~= old(self)@.map_values(
                |doc: JsonView| projected_doc(doc, names),
            ));
        }
        Ok(out)
    }

    /// Replaces every record by what `f` makes of it.
    pub fn map<F: Fn(Json) -> Json>(&mut self, f: F) -> (done: Result<(), DocError>)
        requires
            forall|v: Json| call_requires(f, (v,)),
        ensures
            done is Ok,
            final(self).document.len() == old(self).document.len(),
            forall|i: int|
                0 <= i < old(self)@.len() ==> mapped(
                    f,
                    old(self)@[i],
                    #[trigger] final(self).document[i],
                ),
    {
        let mut out: Vec<Json> = Vec::new();
        let mut i: usize = 0;
        while i < self.document.len()
            invariant
                i <= self.document.len(),
                *self == *old(self),
                out.len() == i,
                forall|v: Json| call_requires(f, (v,)),
                forall|k: int| 0 <= k < i ==> mapped(f, self@[k], #[trigger] out[k]),
            decreases self.document.len() - i,
        {
            let input = self.document[i].clone();
            let ghost given = input;
            let output = f(input);
            proof {
                assert(given@ == self@[i as int] && call_ensures(f, (given,), output));
            }
            out.push(output);
            i += 1;
        }
        self.document = out;
        Ok(())
    }

    /// Replaces, in every record that has the key, the value under `key` by
    /// what `f` makes of it. The member keeps its place.
    pub fn apply<F: Fn(Json) -> Json>(&mut self, key: &str, f: F) -> (done: Result<(), DocError>)
        requires
            forall|v: Json| call_requires(f, (v,)),
        ensures
            done is Ok,
            final(self)@.len() == old(self)@.len(),
            forall|i: int|
                0 <= i < old(self)@.len() ==> applied(
                    f,
                    key@,
                    old(self)@[i],
                    #[trigger] final(self)@[i],
                ),
    {
        let mut out: Vec<Json> = Vec::new();
        let mut i: usize = 0;
        while i < self.document.len()
            invariant
                i <= self.document.len(),
                *self == *old(self),
                out.len() == i,
                forall|v: Json| call_requires(f, (v,)),
                forall|k: int| 0 <= k < i ==> applied(f, key@, self@[k], (#[trigger] out[k])@),
            decreases self.document.len() - i,
        {
            let doc = self.document[i].clone();
            let changed = match doc {
                Json::Object(rec) => {
                    let mut rec = rec;
                    let ghost before = rec@;
                    proof {
                        lemma_object_view(rec);
                        lemma_index_of_name_bounds(before, key@);
                    }
                    let at = rec.position(key);
                    if at < rec.members.len() {
                        let held = rec.members.remove(at);
                        let ghost given = held.value;
                        let output = f(held.value);
                        let ghost made = output;
                        rec.members.insert(at, Member { name: held.name, value: output });
                        proof {
                            lemma_object_view(rec);
                            assert(rec@ =~= before.update(at as int, (key@, made@)));
                            assert(lookup(before, key@) == Some(given@));
                            assert(call_ensures(f, (given,), made));
                        }
                    }
                    Json::Object(rec)
                },
                other => other,
            };
            out.push(changed);
            i += 1;
        }
        self.document = out;
        proof {
            assert forall|i: int| 0 <= i < old(self)@.len() implies applied(
                f,
                key@,
                old(self)@[i],
                #[trigger] self@[i],
            ) by {
                assert(self@[i] == out[i]@);
            }
        }
        Ok(())
    }

    /// Every record as a record of the listed fields, in the order of the
    /// list; a field that a record lacks is left out. Fails where an item is
    /// no record.
    pub fn get_specific_fields(&self, fields: &[&str]) -> (projection: Result<Self, DocError>)
        ensures
            match projection {
                Ok(handler) => {
                    &&& forall|i: int| 0 <= i < self@.len() ==> (#[trigger] self@[i]) is Object
                    &&& handler@ == self@.map_values(
                        |doc: JsonView| projected_doc(doc, names_of(fields@)),
                    )
                },
                Err(e) => {
                    &&& e == DocError::NotAnObject
                    &&& exists|i: int| 0 <= i < self@.len() && !((#[trigger] self@[i]) is Object)
                },
            },
    {
        let ghost names = names_of(fields@);
        let mut out: Vec<Json> = Vec::new();
        let mut i: usize = 0;
        while i < self.document.len()
            invariant
                i <= self.document.len(),
                names == names_of(fields@),
                out.len() == i,
                forall|k: int| 0 <= k < i ==> (#[trigger] self@[k]) is Object,
                forall|k: int| 0 <= k < i ==> (#[trigger] out[k])@ == projected_doc(self@[k], names),
            decreases self.document.len() - i,
        {
            let rec = match self.document[i].as_object() {
                Some(rec) => project_record(rec, fields),
                None => {
                    assert(!(self@[i as int] is Object));
                    return Err(DocError::NotAnObject);
                },
            };
            proof {
                lemma_object_view(rec);
            }
            out.push(Json::Object(rec));
            i += 1;
        }
        let handler = Self { document: out };
        proof {
            assert(handler@ =~= self@.map_values(|doc: JsonView| projected_doc(doc, names)));
        }
        Ok(handler)
    }

    /// Groups the records by the text under `key`: see `grouped`. Where an
    /// aggregator is given, every array of every group is replaced by what
    /// the aggregator makes of it.
    pub fn group_by<F: Fn(Vec<Json>) -> Vec<Json>>(&self, key: &str, agg_map: Option<F>) -> (groups:
        Result<Self, DocError>)
        requires
            agg_map matches Some(f) ==> forall|v: Vec<Json>| call_requires(f, (v,)),
        ensures
            match grouped(self@, key@) {
                Ok(plain) => groups matches Ok(handler) && match agg_map {
                    Some(f) => aggregated(f, key@, plain, handler@),
                    None => handler@ == plain,
                },
                Err(e) => groups == Err::<Self, DocError>(e),
            },
    {
        let plain = match group_records(&self.document, key) {
            Ok(plain) => plain,
            Err(e) => {
                return Err(e);
            },
        };
        match agg_map {
            None => Ok(Self { document: plain }),
            Some(f) => {
                let mut out: Vec<Json> = Vec::new();
                let mut i: usize = 0;
                while i < plain.len()
                    invariant
                        i <= plain.len(),
                        out.len() == i,
                        forall|v: Vec<Json>| call_requires(f, (v,)),
                        forall|k: int|
                            0 <= k < i ==> match plain[k]@ {
                                JsonView::Object(b) => (#[trigger] out[k])@ matches JsonView::Object(
                                    a,
                                ) && aggregated_group(f, key@, b, a),
                                other => out[k]@ == other,
                            },
                    decreases plain.len() - i,
                {
                    let changed = match plain[i].as_object() {
                        Some(group) => {
                            let rec = aggregate_group(group, key, &f);
                            proof {
                                lemma_object_view(rec);
                            }
                            Json::Object(rec)
                        },
                        None => plain[i].clone(),
                    };
                    out.push(changed);
                    i += 1;
                }
                let handler = Self { document: out };
                proof {
                    assert forall|k: int| 0 <= k < plain.len() implies match views_of(plain@)[k] {
                        JsonView::Object(b) => (#[trigger] handler@[k]) matches JsonView::Object(a)
                            && aggregated_group(f, key@, b, a),
                        other => handler@[k] == other,
                    } by {
                        assert(handler@[k] == out[k]@);
                    }
                }
                Ok(handler)
            },
        }
    }
}

} // verus!
