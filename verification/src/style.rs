//! What a table of records and a tree of versions show, before anything is
//! drawn: columns, cells and lines.

use crate::handler::record_of;
use crate::json::{lemma_object_view, lookup, views_of, Json, JsonView, Record, RecordView};
use crate::tags::texts_of;
use crate::text::equal;
use crate::tool::all_records;
use crate::utils::{decimal, digits_of};
use vstd::prelude::*;
use vstd::string::StringExecFns;

verus! {

/// One cell of a table.
#[derive(Debug, PartialEq)]
pub enum Cell {
    /// A text, shown as it is. An empty text stands for a missing value.
    Text(String),
    /// Any other value, shown in its written form.
    Value(Json),
}

/// What a cell holds.
pub enum CellView {
    Text(Seq<char>),
    Value(JsonView),
}

impl View for Cell {
    type V = CellView;

    open spec fn view(&self) -> CellView {
        match self {
            Cell::Text(t) => CellView::Text(t@),
            Cell::Value(v) => CellView::Value(v@),
        }
    }
}

/// What a row of cells holds.
pub open spec fn cells_of(row: Seq<Cell>) -> Seq<CellView> {
    row.map_values(|c: Cell| c@)
}

/// The table of some records.
#[derive(Debug, PartialEq)]
pub enum Table {
    /// There are no records.
    Empty,
    /// One of the items is no record.
    NotRecords,
    /// The names of the columns, and one row of cells for each record.
    Grid { columns: Vec<String>, rows: Vec<Vec<Cell>> },
}

impl Table {
    /// What is shown in place of a table that cannot be drawn.
    pub fn message(&self) -> (text: Option<&'static str>)
        ensures
            text is None <==> self is Grid,
    {
        match self {
            Table::Empty => Some("Empty data"),
            Table::NotRecords => Some("Error: All items in data must be JSON objects"),
            Table::Grid { .. } => None,
        }
    }
}

/// The columns with the names of a record added: each name that is not a
/// column yet becomes the last column, in the order of the members.
pub open spec fn add_names(columns: Seq<Seq<char>>, rec: RecordView) -> Seq<Seq<char>>
    decreases rec.len(),
{
    if rec.len() == 0 {
        columns
    } else {
        let upto = add_names(columns, rec.drop_last());
        if upto.contains(rec.last().0) {
            upto
        } else {
            upto.push(rec.last().0)
        }
    }
}

/// The columns of a table: the names of all members of all records, each
/// once, in the order in which they are first met.
pub open spec fn columns_of(docs: Seq<JsonView>) -> Seq<Seq<char>>
    decreases docs.len(),
{
    if docs.len() == 0 {
        Seq::empty()
    } else {
        add_names(columns_of(docs.drop_last()), record_of(docs.last()))
    }
}

/// The cell of a record in a column: the text as it is, nothing for a
/// missing value or a null, and any other value itself.
pub open spec fn cell_of(rec: RecordView, column: Seq<char>) -> CellView {
    match lookup(rec, column) {
        Some(JsonView::Text(t)) => CellView::Text(t),
        Some(JsonView::Null) => CellView::Text(Seq::empty()),
        Some(v) => CellView::Value(v),
        None => CellView::Text(Seq::empty()),
    }
}

/// The row of a record: its cell in each column.
pub open spec fn row_of(rec: RecordView, columns: Seq<Seq<char>>) -> Seq<CellView> {
    columns.map_values(|c: Seq<char>| cell_of(rec, c))
}

/// No column occurs twice.
pub open spec fn distinct(columns: Seq<Seq<char>>) -> bool {
    forall|i: int, j: int| 0 <= i < j < columns.len() ==> columns[i] != columns[j]
}

/// Adding names leaves the columns that were there in their places, adds no
/// name twice, and misses no name of the record.
pub proof fn lemma_add_names(columns: Seq<Seq<char>>, rec: RecordView)
    ensures
        columns.len() <= add_names(columns, rec).len(),
        add_names(columns, rec).take(columns.len() as int) == columns,
        distinct(columns) ==> distinct(add_names(columns, rec)),
        forall|k: int| 0 <= k < rec.len() ==> add_names(columns, rec).contains((#[trigger] rec[k]).0),
    decreases rec.len(),
{
    let out = add_names(columns, rec);
    if rec.len() == 0 {
        assert(out.take(columns.len() as int) =~= columns);
    } else {
        let upto = add_names(columns, rec.drop_last());
        lemma_add_names(columns, rec.drop_last());
        assert(out.take(columns.len() as int) =~= upto.take(columns.len() as int));
        assert forall|k: int| 0 <= k < rec.len() implies out.contains((#[trigger] rec[k]).0) by {
            if k < rec.len() - 1 {
                assert(rec.drop_last()[k] == rec[k]);
                let at = choose|at: int| 0 <= at < upto.len() && upto[at] == rec[k].0;
                assert(out[at] == rec[k].0);
            } else if upto.contains(rec.last().0) {
            } else {
                assert(out[upto.len() as int] == rec.last().0);
            }
        }
        if distinct(columns) && !upto.contains(rec.last().0) {
            assert forall|i: int, j: int| 0 <= i < j < out.len() implies out[i] != out[j] by {
                if j == upto.len() {
                    assert(upto[i] == out[i]);
                }
            }
        }
    }
}

/// The columns of a table hold no name twice.
pub proof fn lemma_columns_are_distinct(docs: Seq<JsonView>)
    ensures
        distinct(columns_of(docs)),
    decreases docs.len(),
{
    if docs.len() > 0 {
        lemma_columns_are_distinct(docs.drop_last());
        lemma_add_names(columns_of(docs.drop_last()), record_of(docs.last()));
    }
}

/// Whether `name` is among the columns.
fn has_column(columns: &Vec<String>, name: &str) -> (found: bool)
    ensures
        found == texts_of(columns@).contains(name@),
{
    let mut i: usize = 0;
    while i < columns.len()
        invariant
            i <= columns.len(),
            forall|k: int| 0 <= k < i ==> texts_of(columns@)[k] != name@,
        decreases columns.len() - i,
    {
        if equal(columns[i].as_str(), name) {
            assert(texts_of(columns@)[i as int] == name@);
            return true;
        }
        i += 1;
    }
    false
}

/// Adds the names of a record that are no columns yet.
fn add_columns(columns: &mut Vec<String>, rec: &Record)
    ensures
        texts_of(final(columns)@) == add_names(texts_of(old(columns)@), rec@),
{
    let ghost start = texts_of(columns@);
    let mut i: usize = 0;
    assert(rec@.take(0) =~= Seq::<(Seq<char>, JsonView)>::empty());
    while i < rec.members.len()
        invariant
            i <= rec.members.len(),
            texts_of(columns@) == add_names(start, rec@.take(i as int)),
        decreases rec.members.len() - i,
    {
        let ghost before = texts_of(columns@);
        proof {
            let upto = rec@.take(i + 1);
            assert(upto.drop_last() =~= rec@.take(i as int));
            assert(upto.last().0 == rec.members[i as int].name@);
        }
        if !has_column(columns, rec.members[i].name.as_str()) {
            columns.push(rec.members[i].name.clone());
            assert(texts_of(columns@) =~= before.push(rec.members[i as int].name@));
        }
        i += 1;
    }
    assert(rec@.take(rec.members.len() as int) =~= rec@);
}

/// The cell of a record in a column.
fn cell(rec: &Record, column: &str) -> (out: Cell)
    ensures
        out@ == cell_of(rec@, column@),
{
    match rec.get(column) {
        Some(Json::Text(t)) => Cell::Text(t.clone()),
        Some(Json::Null) => Cell::Text(String::new()),
        Some(v) => Cell::Value(v.clone()),
        None => Cell::Text(String::new()),
    }
}

/// The row of a record.
fn row(rec: &Record, columns: &Vec<String>) -> (out: Vec<Cell>)
    ensures
        cells_of(out@) == row_of(rec@, texts_of(columns@)),
{
    let mut out: Vec<Cell> = Vec::new();
    let mut j: usize = 0;
    while j < columns.len()
        invariant
            j <= columns.len(),
            out.len() == j,
            forall|k: int| 0 <= k < j ==> (#[trigger] out[k])@ == cell_of(rec@, columns[k]@),
        decreases columns.len() - j,
    {
        out.push(cell(rec, columns[j].as_str()));
        j += 1;
    }
    assert(cells_of(out@) =~= row_of(rec@, texts_of(columns@)));
    out
}

/// The table of some records: a column for every name that occurs, in the
/// order in which the names are first met, and a row for every record.
/// There is no table of nothing, and none where an item is no record.
pub fn show_table(data: &Vec<Json>) -> (table: Table)
    ensures
        match table {
            Table::Empty => data@.len() == 0,
            Table::NotRecords => data@.len() > 0 && !all_records(views_of(data@)),
            Table::Grid { columns, rows } => {
                &&& data@.len() > 0
                &&& all_records(views_of(data@))
                &&& texts_of(columns@) == columns_of(views_of(data@))
                &&& rows@.len() == data@.len()
                &&& forall|i: int|
                    0 <= i < rows@.len() ==> cells_of((#[trigger] rows@[i])@) == row_of(
                        record_of(views_of(data@)[i]),
                        columns_of(views_of(data@)),
                    )
            },
        },
{
    let ghost docs = views_of(data@);
    if data.len() == 0 {
        return Table::Empty;
    }
    let mut columns: Vec<String> = Vec::new();
    let mut i: usize = 0;
    assert(texts_of(columns@) =~= columns_of(docs.take(0)));
    while i < data.len()
        invariant
            i <= data.len(),
            docs == views_of(data@),
            texts_of(columns@) == columns_of(docs.take(i as int)),
            forall|k: int| 0 <= k < i ==> (#[trigger] docs[k]) is Object,
        decreases data.len() - i,
    {
        proof {
            let upto = docs.take(i + 1);
            assert(upto.drop_last() =~= docs.take(i as int));
            assert(upto.last() == data[i as int]@);
        }
        match data[i].as_object() {
            Some(rec) => {
                add_columns(&mut columns, rec);
            },
            None => {
                assert(!(docs[i as int] is Object));
                return Table::NotRecords;
            },
        }
        i += 1;
    }
    assert(docs.take(data.len() as int) =~= docs);
    let mut rows: Vec<Vec<Cell>> = Vec::new();
    let mut i: usize = 0;
    while i < data.len()
        invariant
            i <= data.len(),
            rows.len() == i,
            docs == views_of(data@),
            texts_of(columns@) == columns_of(docs),
            forall|k: int| 0 <= k < data.len() ==> (#[trigger] docs[k]) is Object,
            forall|k: int|
                0 <= k < i ==> cells_of((#[trigger] rows@[k])@) == row_of(
                    record_of(docs[k]),
                    columns_of(docs),
                ),
        decreases data.len() - i,
    {
        match data[i].as_object() {
            Some(rec) => {
                rows.push(row(rec, &columns));
            },
            None => {
                assert(docs[i as int] is Object);
                assert(false);
            },
        }
        i += 1;
    }
    Table::Grid { columns, rows }
}

/// How far a title is moved in to stand in the middle above a table: half
/// of what the table is wider.
pub fn title_padding(table_width: usize, title_width: usize) -> (padding: usize)
    requires
        title_width <= table_width,
    ensures
        padding == (table_width - title_width) / 2,
{
    (table_width - title_width) / 2
}

/// One line of a tree of versions.
#[derive(Debug, Clone, PartialEq, Eq)]
pub struct TreeLine {
    /// Whether this is the last line of the tree.
    pub last: bool,
    /// Whether the line names the active version.
    pub active: bool,
    /// The mark of the active version, the number of the line and the
    /// name of the version.
    pub text: String,
}

/// What a line of a tree holds.
pub struct TreeLineView {
    pub last: bool,
    pub active: bool,
    pub text: Seq<char>,
}

impl View for TreeLine {
    type V = TreeLineView;

    open spec fn view(&self) -> TreeLineView {
        TreeLineView { last: self.last, active: self.active, text: self.text@ }
    }
}

/// What a vector of lines holds.
pub open spec fn lines_of_tree(lines: Seq<TreeLine>) -> Seq<TreeLineView> {
    lines.map_values(|l: TreeLine| l@)
}

/// The text of the line at `index`, counted from zero: a star for the
/// active version or a blank, the number of the line counted from one, a
/// bracket, and the name of the version.
pub open spec fn tree_text(index: nat, version: Seq<char>, active: bool) -> Seq<char> {
    (if active {
        "*"@
    } else {
        " "@
    }) + digits_of(index + 1) + ") "@ + version
}

/// The line of the tree at `index`.
pub open spec fn tree_line(versions: Seq<Seq<char>>, current: Seq<char>, index: int) -> TreeLineView {
    TreeLineView {
        last: index == versions.len() - 1,
        active: versions[index] == current,
        text: tree_text(index as nat, versions[index], versions[index] == current),
    }
}

/// The lines of the tree of some versions, one for each, in order.
pub open spec fn tree_of(versions: Seq<Seq<char>>, current: Seq<char>) -> Seq<TreeLineView> {
    Seq::new(versions.len(), |i: int| tree_line(versions, current, i))
}

/// The stroke that leads to a line of the tree.
pub fn branch(last: bool) -> (stroke: &'static str)
    ensures
        stroke@ == if last {
            "└──"@
        } else {
            "├──"@
        },
{
    if last {
        "└──"
    } else {
        "├──"
    }
}

/// The lines of the tree of some versions, with the active version marked.
pub fn show_tree(versions: &Vec<String>, current: &str) -> (lines: Vec<TreeLine>)
    ensures
        lines_of_tree(lines@) == tree_of(texts_of(versions@), current@),
{
    let ghost names = texts_of(versions@);
    let mut lines: Vec<TreeLine> = Vec::new();
    let mut i: usize = 0;
    while i < versions.len()
        invariant
            i <= versions.len(),
            lines.len() == i,
            names == texts_of(versions@),
            forall|k: int| 0 <= k < i ==> (#[trigger] lines[k])@ == tree_line(names, current@, k),
        decreases versions.len() - i,
    {
        let active = equal(versions[i].as_str(), current);
        assert(names[i as int] == versions[i as int]@);
        let mut text = if active {
            "*".to_owned()
        } else {
            " ".to_owned()
        };
        let number = decimal((i + 1) as u64);
        text.append(number.as_str());
        text.append(") ");
        text.append(versions[i].as_str());
        lines.push(TreeLine { last: i == versions.len() - 1, active, text });
        i += 1;
    }
    assert(lines_of_tree(lines@) =~= tree_of(names, current@));
    lines
}

} // verus!
