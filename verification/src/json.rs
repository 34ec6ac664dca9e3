//! JSON values as the document engine sees them: plain data with a
//! mathematical view, and records as ordered lists of named members.

use crate::text;
use vstd::prelude::*;

verus! {

/// A JSON value. Integers hold what a signed or unsigned 64-bit number can
/// hold; a number with a fraction or an exponent is kept as its decimal text.
/// An object keeps its members in order.
#[derive(Debug, PartialEq)]
pub enum Json {
    Null,
    Bool(bool),
    Integer(i128),
    Real(String),
    Text(String),
    Array(Vec<Json>),
    Object(Record),
}

/// One named member of a record.
#[derive(Debug, PartialEq)]
pub struct Member {
    pub name: String,
    pub value: Json,
}

/// An ordered list of named members. A name is looked up from the front, so
/// the first member of a name is the one that counts.
#[derive(Debug, PartialEq)]
pub struct Record {
    pub members: Vec<Member>,
}

/// The mathematical content of a JSON value.
pub enum JsonView {
    Null,
    Bool(bool),
    Integer(int),
    Real(Seq<char>),
    Text(Seq<char>),
    Array(Seq<JsonView>),
    Object(Seq<(Seq<char>, JsonView)>),
}

/// The mathematical content of a record: its members in order.
pub type RecordView = Seq<(Seq<char>, JsonView)>;

/// What a value holds.
pub open spec fn json_view(j: Json) -> JsonView
    decreases j,
{
    match j {
        Json::Null => JsonView::Null,
        Json::Bool(b) => JsonView::Bool(b),
        Json::Integer(n) => JsonView::Integer(n as int),
        Json::Real(s) => JsonView::Real(s@),
        Json::Text(s) => JsonView::Text(s@),
        Json::Array(items) => JsonView::Array(
            Seq::new(
                items.len() as nat,
                |i: int|
                    if 0 <= i < items.len() {
                        json_view(items[i])
                    } else {
                        JsonView::Null
                    },
            ),
        ),
        Json::Object(rec) => JsonView::Object(
            Seq::new(
                rec.members.len() as nat,
                |i: int|
                    if 0 <= i < rec.members.len() {
                        (rec.members[i].name@, json_view(rec.members[i].value))
                    } else {
                        (Seq::empty(), JsonView::Null)
                    },
            ),
        ),
    }
}

impl View for Json {
    type V = JsonView;

    open spec fn view(&self) -> JsonView {
        json_view(*self)
    }
}

impl View for Member {
    type V = (Seq<char>, JsonView);

    open spec fn view(&self) -> (Seq<char>, JsonView) {
        (self.name@, self.value@)
    }
}

impl View for Record {
    type V = RecordView;

    open spec fn view(&self) -> RecordView {
        Seq::new(self.members.len() as nat, |i: int| self.members[i]@)
    }
}

/// The contents of a vector of values, in order.
pub open spec fn views_of(items: Seq<Json>) -> Seq<JsonView> {
    Seq::new(items.len(), |i: int| items[i]@)
}

/// An array's view is the views of its items.
pub proof fn lemma_array_view(items: Vec<Json>)
    ensures
        Json::Array(items)@ == JsonView::Array(views_of(items@)),
{
    assert(Json::Array(items)@->Array_0 =~= views_of(items@));
}

/// An object's view is the view of its record.
pub proof fn lemma_object_view(rec: Record)
    ensures
        Json::Object(rec)@ == JsonView::Object(rec@),
{
    assert(Json::Object(rec)@->Object_0 =~= rec@);
}

/// The offset of the first member called `name`, or the number of members
/// where there is none.
pub open spec fn index_of_name(r: RecordView, name: Seq<char>) -> nat
    decreases r.len(),
{
    if r.len() == 0 {
        0
    } else if r[0].0 == name {
        0
    } else {
        1 + index_of_name(r.skip(1), name)
    }
}

/// Whether the record has a member called `name`.
pub open spec fn has_name(r: RecordView, name: Seq<char>) -> bool {
    index_of_name(r, name) < r.len()
}

/// The value of the first member called `name`.
pub open spec fn lookup(r: RecordView, name: Seq<char>) -> Option<JsonView> {
    if has_name(r, name) {
        Some(r[index_of_name(r, name) as int].1)
    } else {
        None
    }
}

/// The record with `value` under `name`: in the place of the first member of
/// that name, or at the end where there is none.
pub open spec fn with_member(r: RecordView, name: Seq<char>, value: JsonView) -> RecordView {
    if has_name(r, name) {
        r.update(index_of_name(r, name) as int, (name, value))
    } else {
        r.push((name, value))
    }
}

/// The record without the first member called `name`.
pub open spec fn without_member(r: RecordView, name: Seq<char>) -> RecordView {
    if has_name(r, name) {
        r.remove(index_of_name(r, name) as int)
    } else {
        r
    }
}

/// The offset of a name lies within the record or right behind it, and no
/// member before it has the name.
pub proof fn lemma_index_of_name_bounds(r: RecordView, name: Seq<char>)
    ensures
        index_of_name(r, name) <= r.len(),
        has_name(r, name) ==> r[index_of_name(r, name) as int].0 == name,
        forall|j: int| 0 <= j < index_of_name(r, name) ==> r[j].0 != name,
    decreases r.len(),
{
    if r.len() > 0 && r[0].0 != name {
        lemma_index_of_name_bounds(r.skip(1), name);
        assert forall|j: int| 0 <= j < index_of_name(r, name) implies r[j].0 != name by {
            if j > 0 {
                assert(r[j] == r.skip(1)[j - 1]);
            }
        }
    }
}

/// The first `n` members do not bear the name, and the next one, if there is
/// one, does: then `n` is the offset of the name.
pub proof fn lemma_index_of_name_is(r: RecordView, name: Seq<char>, n: int)
    requires
        0 <= n <= r.len(),
        forall|j: int| 0 <= j < n ==> r[j].0 != name,
        n < r.len() ==> r[n].0 == name,
    ensures
        index_of_name(r, name) == n,
    decreases n,
{
    if n > 0 {
        assert(r[0].0 != name);
        assert forall|j: int| 0 <= j < n - 1 implies r.skip(1)[j].0 != name by {
            assert(r.skip(1)[j] == r[j + 1]);
        }
        if n < r.len() {
            assert(r.skip(1)[n - 1] == r[n]);
        }
        lemma_index_of_name_is(r.skip(1), name, n - 1);
    }
}

/// After `with_member`, the name is found with the new value, and every
/// other name is found as before.
pub proof fn lemma_lookup_with_member(
    r: RecordView,
    name: Seq<char>,
    value: JsonView,
    other: Seq<char>,
)
    ensures
        lookup(with_member(r, name, value), name) == Some(value),
        other != name ==> lookup(with_member(r, name, value), other) == lookup(r, other),
{
    let w = with_member(r, name, value);
    lemma_index_of_name_bounds(r, name);
    lemma_index_of_name_bounds(r, other);
    let n = index_of_name(r, name) as int;
    lemma_index_of_name_is(w, name, n);
    if other != name {
        if has_name(r, other) {
            lemma_index_of_name_is(w, other, index_of_name(r, other) as int);
        } else {
            lemma_index_of_name_is(w, other, w.len() as int);
        }
    }
}

/// A copy of a value, with the same content.
pub fn copy_json(j: &Json) -> (out: Json)
    ensures
        out@ == j@,
    decreases j,
{
    match j {
        Json::Null => Json::Null,
        Json::Bool(b) => Json::Bool(*b),
        Json::Integer(n) => Json::Integer(*n),
        Json::Real(s) => Json::Real(s.clone()),
        Json::Text(s) => Json::Text(s.clone()),
        Json::Array(items) => {
            let mut out: Vec<Json> = Vec::new();
            let mut i: usize = 0;
            while i < items.len()
                invariant
                    i <= items.len(),
                    decreases_to!(j => items),
                    out.len() == i,
                    forall|k: int| 0 <= k < i ==> out[k]@ == items[k]@,
                decreases items.len() - i,
            {
                proof {
                    vstd::std_specs::vec::axiom_vec_index_decreases(*items, i as int);
                }
                let c = copy_json(&items[i]);
                out.push(c);
                i += 1;
            }
            proof {
                lemma_array_view(out);
                lemma_array_view(*items);
                assert(views_of(out@) =~= views_of(items@));
            }
            Json::Array(out)
        },
        Json::Object(rec) => {
            let mut out: Vec<Member> = Vec::new();
            let mut i: usize = 0;
            while i < rec.members.len()
                invariant
                    i <= rec.members.len(),
                    decreases_to!(j => rec),
                    out.len() == i,
                    forall|k: int| 0 <= k < i ==> out[k]@ == rec.members[k]@,
                decreases rec.members.len() - i,
            {
                proof {
                    vstd::std_specs::vec::axiom_vec_index_decreases(rec.members, i as int);
                }
                let c = copy_json(&rec.members[i].value);
                out.push(Member { name: rec.members[i].name.clone(), value: c });
                i += 1;
            }
            let copy = Record { members: out };
            proof {
                lemma_object_view(copy);
                lemma_object_view(*rec);
                assert(copy@ =~= rec@);
            }
            Json::Object(copy)
        },
    }
}

impl Clone for Json {
    fn clone(&self) -> (out: Self)
        ensures
            out@ == self@,
    {
        copy_json(self)
    }
}

impl Clone for Member {
    fn clone(&self) -> (out: Self)
        ensures
            out@ == self@,
    {
        Member { name: self.name.clone(), value: copy_json(&self.value) }
    }
}

impl Clone for Record {
    fn clone(&self) -> (out: Self)
        ensures
            out@ == self@,
    {
        let mut out: Vec<Member> = Vec::new();
        let mut i: usize = 0;
        while i < self.members.len()
            invariant
                i <= self.members.len(),
                out.len() == i,
                forall|k: int| 0 <= k < i ==> out[k]@ == self.members[k]@,
            decreases self.members.len() - i,
        {
            out.push(self.members[i].clone());
            i += 1;
        }
        let copy = Record { members: out };
        assert(copy@ =~= self@);
        copy
    }
}

/// Copies of the values of a vector, in order.
pub fn copy_values(items: &Vec<Json>) -> (out: Vec<Json>)
    ensures
        views_of(out@) == views_of(items@),
{
    let mut out: Vec<Json> = Vec::new();
    let mut i: usize = 0;
    while i < items.len()
        invariant
            i <= items.len(),
            out.len() == i,
            forall|k: int| 0 <= k < i ==> out[k]@ == items[k]@,
        decreases items.len() - i,
    {
        out.push(items[i].clone());
        i += 1;
    }
    assert(views_of(out@) =~= views_of(items@));
    out
}

/// Whether two texts hold the same characters.
pub fn same_text(a: &String, b: &String) -> (same: bool)
    ensures
        same == (a@ == b@),
{
    *a == *b
}

/// Whether two values have the same content. Members of an object are
/// compared in order.
pub fn same_json(a: &Json, b: &Json) -> (same: bool)
    ensures
        same == (a@ == b@),
    decreases a,
{
    match (a, b) {
        (Json::Null, Json::Null) => true,
        (Json::Bool(x), Json::Bool(y)) => *x == *y,
        (Json::Integer(x), Json::Integer(y)) => *x == *y,
        (Json::Real(x), Json::Real(y)) => same_text(x, y),
        (Json::Text(x), Json::Text(y)) => same_text(x, y),
        (Json::Array(xs), Json::Array(ys)) => {
            proof {
                lemma_array_view(*xs);
                lemma_array_view(*ys);
            }
            if xs.len() != ys.len() {
                assert(views_of(xs@).len() != views_of(ys@).len());
                return false;
            }
            let mut i: usize = 0;
            while i < xs.len()
                invariant
                    i <= xs.len(),
                    xs.len() == ys.len(),
                    decreases_to!(a => xs),
                    forall|k: int| 0 <= k < i ==> xs[k]@ == ys[k]@,
                    a@ == JsonView::Array(views_of(xs@)),
                    b@ == JsonView::Array(views_of(ys@)),
                decreases xs.len() - i,
            {
                proof {
                    vstd::std_specs::vec::axiom_vec_index_decreases(*xs, i as int);
                }
                if !same_json(&xs[i], &ys[i]) {
                    assert(views_of(xs@)[i as int] != views_of(ys@)[i as int]);
                    return false;
                }
                i += 1;
            }
            assert(views_of(xs@) =~= views_of(ys@));
            true
        },
        (Json::Object(x), Json::Object(y)) => {
            proof {
                lemma_object_view(*x);
                lemma_object_view(*y);
            }
            if x.members.len() != y.members.len() {
                assert(x@.len() != y@.len());
                return false;
            }
            let mut i: usize = 0;
            while i < x.members.len()
                invariant
                    i <= x.members.len(),
                    x.members.len() == y.members.len(),
                    decreases_to!(a => x),
                    forall|k: int| 0 <= k < i ==> x.members[k]@ == y.members[k]@,
                    a@ == JsonView::Object(x@),
                    b@ == JsonView::Object(y@),
                decreases x.members.len() - i,
            {
                proof {
                    vstd::std_specs::vec::axiom_vec_index_decreases(x.members, i as int);
                }
                if !same_text(&x.members[i].name, &y.members[i].name) || !same_json(
                    &x.members[i].value,
                    &y.members[i].value,
                ) {
                    assert(x@[i as int] != y@[i as int]);
                    return false;
                }
                i += 1;
            }
            assert(x@ =~= y@);
            true
        },
        _ => false,
    }
}

impl Record {
    /// A record without members.
    pub fn new() -> (rec: Record)
        ensures
            rec@ == Seq::<(Seq<char>, JsonView)>::empty(),
    {
        let rec = Record { members: Vec::new() };
        assert(rec@ =~= Seq::<(Seq<char>, JsonView)>::empty());
        rec
    }

    /// The number of members.
    pub fn len(&self) -> (n: usize)
        ensures
            n == self@.len(),
    {
        self.members.len()
    }

    /// The offset of the first member called `name`, or the number of
    /// members where there is none.
    pub fn position(&self, name: &str) -> (at: usize)
        ensures
            at == index_of_name(self@, name@),
            at <= self.members.len(),
    {
        let mut i: usize = 0;
        while i < self.members.len() && !text::equal(self.members[i].name.as_str(), name)
            invariant
                i <= self.members.len(),
                forall|j: int| 0 <= j < i ==> self@[j].0 != name@,
            decreases self.members.len() - i,
        {
            i += 1;
        }
        proof {
            if i < self.members.len() {
                assert(self@[i as int].0 == name@);
            }
            lemma_index_of_name_is(self@, name@, i as int);
        }
        i
    }

    /// Whether a member is called `name`.
    pub fn contains_key(&self, name: &str) -> (found: bool)
        ensures
            found == has_name(self@, name@),
    {
        self.position(name) < self.members.len()
    }

    /// The value of the first member called `name`.
    pub fn get(&self, name: &str) -> (value: Option<&Json>)
        ensures
            match value {
                Some(v) => lookup(self@, name@) == Some(v@),
                None => lookup(self@, name@) is None,
            },
    {
        let i = self.position(name);
        if i < self.members.len() {
            Some(&self.members[i].value)
        } else {
            None
        }
    }

    /// Puts `value` under `name`: in the place of the first member of that
    /// name, or at the end where there is none.
    pub fn insert(&mut self, name: String, value: Json)
        ensures
            final(self)@ == with_member(old(self)@, name@, value@),
    {
        let i = self.position(name.as_str());
        let ghost n = name@;
        let ghost v = value@;
        if i < self.members.len() {
            self.members[i] = Member { name, value };
            assert(self@ =~= old(self)@.update(i as int, (n, v)));
        } else {
            self.members.push(Member { name, value });
            assert(self@ =~= old(self)@.push((n, v)));
        }
    }

    /// Takes out the first member called `name` and returns its value.
    pub fn remove(&mut self, name: &str) -> (value: Option<Json>)
        ensures
            final(self)@ == without_member(old(self)@, name@),
            match value {
                Some(v) => lookup(old(self)@, name@) == Some(v@),
                None => lookup(old(self)@, name@) is None,
            },
    {
        let i = self.position(name);
        if i < self.members.len() {
            let m = self.members.remove(i);
            assert(self@ =~= old(self)@.remove(i as int));
            Some(m.value)
        } else {
            None
        }
    }
}

impl Json {
    /// The text of a text value.
    pub fn as_str(&self) -> (text: Option<&str>)
        ensures
            match text {
                Some(s) => self@ == JsonView::Text(s@),
                None => !(self@ is Text),
            },
    {
        match self {
            Json::Text(s) => Some(s.as_str()),
            _ => None,
        }
    }

    /// The number, where the value is an integer that an unsigned 64-bit
    /// number can hold.
    pub fn as_u64(&self) -> (number: Option<u64>)
        ensures
            match number {
                Some(n) => self@ == JsonView::Integer(n as int),
                None => !(self@ matches JsonView::Integer(n) && 0 <= n <= u64::MAX),
            },
    {
        match self {
            Json::Integer(n) => {
                if 0 <= *n && *n <= 18446744073709551615i128 {
                    Some(*n as u64)
                } else {
                    None
                }
            },
            _ => None,
        }
    }

    /// The items of an array.
    pub fn as_array(&self) -> (items: Option<&Vec<Json>>)
        ensures
            match items {
                Some(v) => self@ == JsonView::Array(views_of(v@)),
                None => !(self@ is Array),
            },
    {
        match self {
            Json::Array(items) => {
                proof {
                    lemma_array_view(*items);
                }
                Some(items)
            },
            _ => None,
        }
    }

    /// The record of an object.
    pub fn as_object(&self) -> (rec: Option<&Record>)
        ensures
            match rec {
                Some(r) => self@ == JsonView::Object(r@),
                None => !(self@ is Object),
            },
    {
        match self {
            Json::Object(rec) => {
                proof {
                    lemma_object_view(*rec);
                }
                Some(rec)
            },
            _ => None,
        }
    }
}

} // verus!
