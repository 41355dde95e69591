//! The tables of a broker CSV export. Each record starts with the table's
//! name and the kind of the row (`Header`, `Data`, `Total`, ...); records are
//! grouped by table, keeping their order.

use vstd::prelude::*;

use crate::csv_input::{csv_records_of, read_records, read_until_error};
use crate::error::Error;
use crate::text::{cell, has_prefix, str_eq, starts_with, trim, trimmed};

verus! {

/// One record of a table: its kind and the fields after name and kind.
pub struct Row {
    pub kind: String,
    pub fields: Vec<String>,
}

/// The records of one table, in file order.
pub struct Table {
    pub name: String,
    pub rows: Vec<Row>,
}

/// All tables of a file, each name once, in order of first appearance.
pub struct Groups {
    pub tables: Vec<Table>,
}

/// The characters of each text.
pub open spec fn texts(v: Seq<String>) -> Seq<Seq<char>> {
    v.map_values(|s: String| s@)
}

/// Kind and fields of a row.
pub open spec fn row_view(r: Row) -> (Seq<char>, Seq<Seq<char>>) {
    (r.kind@, texts(r.fields@))
}

pub open spec fn rows_view(rows: Seq<Row>) -> Seq<(Seq<char>, Seq<Seq<char>>)> {
    rows.map_values(|r: Row| row_view(r))
}

/// Where a record goes: `None` for records with fewer than two fields or an
/// empty (trimmed) table name; otherwise the trimmed table name, the trimmed
/// kind and the remaining fields.
pub open spec fn placed(rec: Seq<Seq<char>>) -> Option<(Seq<char>, (Seq<char>, Seq<Seq<char>>))> {
    if rec.len() < 2 {
        None
    } else {
        let t = trimmed(rec[0]);
        if t.len() == 0 {
            None
        } else {
            Some((t, (trimmed(rec[1]), rec.skip(2))))
        }
    }
}

/// The rows that the records give to table `name`, in order.
pub open spec fn rows_of_table(records: Seq<Seq<Seq<char>>>, name: Seq<char>) -> Seq<
    (Seq<char>, Seq<Seq<char>>),
>
    decreases records.len(),
{
    if records.len() == 0 {
        Seq::empty()
    } else {
        let prev = rows_of_table(records.drop_last(), name);
        match placed(records.last()) {
            Some((t, r)) => if t == name {
                prev.push(r)
            } else {
                prev
            },
            None => prev,
        }
    }
}

/// The rows of table `name` in `tables` (the first table of that name).
pub open spec fn table_rows(tables: Seq<Table>, name: Seq<char>) -> Seq<
    (Seq<char>, Seq<Seq<char>>),
>
    decreases tables.len(),
{
    if tables.len() == 0 {
        Seq::empty()
    } else if tables[0].name@ == name {
        rows_view(tables[0].rows@)
    } else {
        table_rows(tables.drop_first(), name)
    }
}

/// Whether `t` is one of `names`.
pub open spec fn listed(names: Seq<String>, t: Seq<char>) -> bool {
    exists|a: int| 0 <= a < names.len() && names[a]@ == t
}

/// No table name occurs twice.
pub open spec fn names_distinct(tables: Seq<Table>) -> bool {
    forall|i: int, j: int|
        0 <= i < tables.len() && 0 <= j < tables.len() && i != j ==> tables[i].name@
            != tables[j].name@
}

impl Groups {
    /// The rows of table `name`.
    pub open spec fn rows(self, name: Seq<char>) -> Seq<(Seq<char>, Seq<Seq<char>>)> {
        table_rows(self.tables@, name)
    }

    pub open spec fn wf(self) -> bool {
        names_distinct(self.tables@)
    }
}

/// The fields of the `Data` rows among `rows`, in order.
pub open spec fn data_fields(rows: Seq<(Seq<char>, Seq<Seq<char>>)>) -> Seq<Seq<Seq<char>>>
    decreases rows.len(),
{
    if rows.len() == 0 {
        Seq::empty()
    } else {
        let prev = data_fields(rows.drop_last());
        if rows.last().0 == "Data"@ {
            prev.push(rows.last().1)
        } else {
            prev
        }
    }
}

// ------------------------------------------------------------------
// Grouping
// ------------------------------------------------------------------

/// The characters of each record's fields.
pub open spec fn records_view(records: Seq<Vec<String>>) -> Seq<Seq<Seq<char>>> {
    records.map_values(|r: Vec<String>| texts(r@))
}

proof fn lemma_rows_of_table_absent(records: Seq<Seq<Seq<char>>>, name: Seq<char>)
    requires
        forall|j: int|
            0 <= j < records.len() ==> !(#[trigger] placed(records[j]) matches Some((t, _))
                && t == name),
    ensures
        rows_of_table(records, name) == Seq::<(Seq<char>, Seq<Seq<char>>)>::empty(),
    decreases records.len(),
{
    if records.len() > 0 {
        let p = records.drop_last();
        assert forall|j: int| 0 <= j < p.len() implies !(#[trigger] placed(p[j]) matches Some(
            (t, _),
        ) && t == name) by {
            assert(p[j] == records[j]);
        }
        lemma_rows_of_table_absent(p, name);
        assert(placed(records[records.len() - 1]) == placed(records.last()));
    }
}

proof fn lemma_table_rows_at(tables: Seq<Table>, i: int)
    requires
        names_distinct(tables),
        0 <= i < tables.len(),
    ensures
        table_rows(tables, tables[i].name@) == rows_view(tables[i].rows@),
    decreases i,
{
    if i > 0 {
        let t = tables.drop_first();
        assert(tables[0].name@ != tables[i].name@);
        assert(t[i - 1] == tables[i]);
        assert forall|a: int, b: int|
            0 <= a < t.len() && 0 <= b < t.len() && a != b implies t[a].name@ != t[b].name@ by {
            assert(t[a] == tables[a + 1]);
            assert(t[b] == tables[b + 1]);
        }
        lemma_table_rows_at(t, i - 1);
    }
}

proof fn lemma_table_rows_absent(tables: Seq<Table>, name: Seq<char>)
    requires
        forall|i: int| 0 <= i < tables.len() ==> #[trigger] tables[i].name@ != name,
    ensures
        table_rows(tables, name) == Seq::<(Seq<char>, Seq<Seq<char>>)>::empty(),
    decreases tables.len(),
{
    if tables.len() > 0 {
        let t = tables.drop_first();
        assert(tables[0].name@ != name);
        assert forall|i: int| 0 <= i < t.len() implies #[trigger] t[i].name@ != name by {
            assert(t[i] == tables[i + 1]);
        }
        lemma_table_rows_absent(t, name);
    }
}

/// The fields from index 2 on.
fn fields_after_two(rec: &Vec<String>) -> (r: Vec<String>)
    requires
        rec.len() >= 2,
    ensures
        texts(r@) == texts(rec@).skip(2),
{
    let mut r: Vec<String> = Vec::new();
    let mut i: usize = 2;
    while i < rec.len()
        invariant
            2 <= i <= rec.len(),
            r@.len() == i - 2,
            forall|k: int| 0 <= k < r@.len() ==> #[trigger] r@[k]@ == rec@[k + 2]@,
        decreases rec.len() - i,
    {
        let f = rec[i].clone();
        r.push(f);
        i = i + 1;
    }
    assert(texts(r@) =~= texts(rec@).skip(2)) by {
        assert forall|k: int| 0 <= k < r@.len() implies texts(r@)[k] == texts(rec@).skip(2)[k] by {
            assert(r@[k]@ == rec@[k + 2]@);
        }
    }
    r
}

/// Where record `rec` goes, computed.
fn place(rec: &Vec<String>) -> (r: Option<(&str, &str)>)
    ensures
        r matches Some((t, k)) ==> placed(texts(rec@)) == Some((t@, (k@, texts(rec@).skip(2)))),
        r is None ==> placed(texts(rec@)) is None,
{
    if rec.len() < 2 {
        return None;
    }
    let t = trim(rec[0].as_str());
    if t.unicode_len() == 0 {
        return None;
    }
    let k = trim(rec[1].as_str());
    Some((t, k))
}

/// Groups the records of a CSV file by table name; records with fewer than
/// two fields or an empty table name are left out.
pub fn group_records(records: &Vec<Vec<String>>) -> (g: Groups)
    ensures
        g.wf(),
        forall|name: Seq<char>|
            #![trigger g.rows(name)]
            g.rows(name) == rows_of_table(records_view(records@), name),
{
    let ghost recs = records_view(records@);
    // The table names, in order of first appearance.
    let mut names: Vec<String> = Vec::new();
    let mut i: usize = 0;
    while i < records.len()
        invariant
            i <= records.len(),
            recs == records_view(records@),
            forall|a: int, b: int|
                0 <= a < names.len() && 0 <= b < names.len() && a != b ==> names@[a]@
                    != names@[b]@,
            forall|j: int|
                0 <= j < i ==> (#[trigger] placed(recs[j]) matches Some((t, _)) ==> listed(
                    names@,
                    t,
                )),
        decreases records.len() - i,
    {
        assert(recs[i as int] == texts(records@[i as int]@));
        let ghost old_names = names@;
        match place(&records[i]) {
            Some((t, _)) => {
                let mut found = false;
                let mut a: usize = 0;
                while a < names.len()
                    invariant
                        a <= names.len(),
                        found ==> exists|b: int| 0 <= b < names.len() && names@[b]@ == t@,
                        !found ==> forall|b: int| 0 <= b < a ==> names@[b]@ != t@,
                    decreases names.len() - a,
                {
                    if str_eq(names[a].as_str(), t) {
                        found = true;
                    }
                    a = a + 1;
                }
                if !found {
                    names.push(t.to_owned());
                    assert(names@[names.len() - 1]@ == t@);
                    assert forall|a: int, b: int|
                        0 <= a < names.len() && 0 <= b < names.len() && a != b implies names@[a]@
                        != names@[b]@ by {
                        if a < old_names.len() && b < old_names.len() {
                            assert(names@[a] == old_names[a]);
                            assert(names@[b] == old_names[b]);
                        }
                    }
                }
                assert(listed(names@, t@));
            },
            None => {},
        }
        assert forall|j: int|
            0 <= j < i + 1 implies (#[trigger] placed(recs[j]) matches Some((t, _)) ==> listed(
            names@,
            t,
        )) by {
            match placed(recs[j]) {
                Some((t, _)) => {
                    if j < i {
                        let a = choose|a: int| 0 <= a < old_names.len() && old_names[a]@ == t;
                        assert(names@[a] == old_names[a]);
                    }
                },
                None => {},
            }
        }
        i = i + 1;
    }
    // The rows of each table.
    let mut tables: Vec<Table> = Vec::new();
    let mut n: usize = 0;
    while n < names.len()
        invariant
            n <= names.len(),
            recs == records_view(records@),
            tables.len() == n,
            forall|a: int, b: int|
                0 <= a < names.len() && 0 <= b < names.len() && a != b ==> names@[a]@
                    != names@[b]@,
            forall|a: int|
                0 <= a < n ==> (#[trigger] tables@[a]).name@ == names@[a]@ && rows_view(
                    tables@[a].rows@,
                ) == rows_of_table(recs, names@[a]@),
        decreases names.len() - n,
    {
        let name = names[n].as_str();
        let mut rows: Vec<Row> = Vec::new();
        let mut j: usize = 0;
        while j < records.len()
            invariant
                j <= records.len(),
                recs == records_view(records@),
                rows_view(rows@) == rows_of_table(recs.take(j as int), name@),
            decreases records.len() - j,
        {
            assert(recs[j as int] == texts(records@[j as int]@));
            assert(recs.take(j + 1).drop_last() =~= recs.take(j as int));
            assert(recs.take(j + 1).last() == recs[j as int]);
            match place(&records[j]) {
                Some((t, k)) => {
                    if str_eq(t, name) {
                        let fields = fields_after_two(&records[j]);
                        let row = Row { kind: k.to_owned(), fields };
                        rows.push(row);
                        assert(rows_view(rows@) =~= rows_of_table(recs.take(j as int), name@).push(
                            row_view(row),
                        ));
                    }
                },
                None => {},
            }
            j = j + 1;
        }
        assert(recs.take(records.len() as int) =~= recs);
        tables.push(Table { name: names[n].clone(), rows });
        n = n + 1;
    }
    let g = Groups { tables };
    proof {
        assert(names_distinct(g.tables@)) by {
            assert forall|a: int, b: int|
                0 <= a < g.tables@.len() && 0 <= b < g.tables@.len() && a != b implies g.tables@[a].name@
                != g.tables@[b].name@ by {
                assert(g.tables@[a].name@ == names@[a]@);
                assert(g.tables@[b].name@ == names@[b]@);
            }
        }
        assert forall|name: Seq<char>| #[trigger]
            g.rows(name) == rows_of_table(recs, name) by {
            if exists|a: int| 0 <= a < names.len() && names@[a]@ == name {
                let a = choose|a: int| 0 <= a < names.len() && names@[a]@ == name;
                assert(g.tables@[a].name@ == name);
                lemma_table_rows_at(g.tables@, a);
            } else {
                assert forall|a: int| 0 <= a < g.tables@.len() implies #[trigger] g.tables@[a].name@
                    != name by {
                    assert(g.tables@[a].name@ == names@[a]@);
                }
                lemma_table_rows_absent(g.tables@, name);
                assert forall|j: int| 0 <= j < recs.len() implies !(#[trigger] placed(
                    recs[j],
                ) matches Some((t, _)) && t == name) by {
                    match placed(recs[j]) {
                        Some((t, _)) => {
                            if t == name {
                                    let a = choose|a: int| 0 <= a < names.len() && names@[a]@ == t;
                                assert(names@[a]@ == name);
                            }
                        },
                        None => {},
                    }
                }
                lemma_rows_of_table_absent(recs, name);
            }
        }
    }
    g
}


/// Reads the records of a broker CSV export (no header row, records of any
/// length) and groups them by table. The first record that does not read
/// makes the whole read fail with its error.
pub fn load_groups(bytes: &[u8]) -> (r: Result<Groups, Error>)
    ensures
        match read_until_error(csv_records_of(bytes@)).1 {
            Some(m) => r matches Err(Error::Csv(s)) && s@ == m,
            None => r matches Ok(g) && g.wf() && forall|name: Seq<char>|
                #![trigger g.rows(name)]
                g.rows(name) == rows_of_table(read_until_error(csv_records_of(bytes@)).0, name),
        },
{
    let read = read_records(bytes);
    match read.error {
        Some(e) => Err(e),
        None => Ok(group_records(&read.records)),
    }
}

// ------------------------------------------------------------------
// Selecting rows
// ------------------------------------------------------------------

/// Which `Data` rows of a table to keep, by one of their cells.
pub enum RowFilter<'s> {
    /// Every row.
    All,
    /// Rows whose cell `col` is `value`.
    ColumnIs(usize, &'s str),
    /// Rows whose cell `col` is one of two values.
    ColumnIsOneOf(usize, &'s str, &'s str),
    /// Rows whose cell `col` does not start with `prefix`.
    ColumnNotStartingWith(usize, &'s str),
    /// Rows whose cell `col` is not empty.
    ColumnNotEmpty(usize),
}

/// Whether `filter` keeps a row with these fields.
pub open spec fn keeps(filter: RowFilter, fields: Seq<Seq<char>>) -> bool {
    match filter {
        RowFilter::All => true,
        RowFilter::ColumnIs(col, v) => cell_of(fields, col as int) == v@,
        RowFilter::ColumnIsOneOf(col, a, b) => cell_of(fields, col as int) == a@ || cell_of(
            fields,
            col as int,
        ) == b@,
        RowFilter::ColumnNotStartingWith(col, p) => !has_prefix(cell_of(fields, col as int), p@),
        RowFilter::ColumnNotEmpty(col) => cell_of(fields, col as int).len() > 0,
    }
}

/// Cell `i` of a row's fields, or the empty text.
pub open spec fn cell_of(fields: Seq<Seq<char>>, i: int) -> Seq<char> {
    if 0 <= i < fields.len() {
        fields[i]
    } else {
        Seq::empty()
    }
}

/// The fields of the `Data` rows among `rows` that `filter` keeps, in order.
pub open spec fn selected(rows: Seq<(Seq<char>, Seq<Seq<char>>)>, filter: RowFilter) -> Seq<
    Seq<Seq<char>>,
>
    decreases rows.len(),
{
    if rows.len() == 0 {
        Seq::empty()
    } else {
        let prev = selected(rows.drop_last(), filter);
        if rows.last().0 == "Data"@ && keeps(filter, rows.last().1) {
            prev.push(rows.last().1)
        } else {
            prev
        }
    }
}

/// Law: the rows that a filter selects from a table are its `Data` rows
/// that the filter keeps, in file order (`pred` says what the filter keeps).
pub proof fn lemma_selected_filter(
    rows: Seq<(Seq<char>, Seq<Seq<char>>)>,
    filter: RowFilter,
    pred: spec_fn(Seq<Seq<char>>) -> bool,
)
    requires
        forall|f: Seq<Seq<char>>| #[trigger] pred(f) == keeps(filter, f),
    ensures
        selected(rows, filter) == data_fields(rows).filter(pred),
    decreases rows.len(),
{
    reveal(Seq::filter);
    if rows.len() > 0 {
        lemma_selected_filter(rows.drop_last(), filter, pred);
        let d = data_fields(rows);
        if rows.last().0 == "Data"@ {
            assert(d.drop_last() =~= data_fields(rows.drop_last()));
            assert(d.last() == rows.last().1);
        }
    }
}

/// Law: selecting every row of a table gives all its `Data` rows, in file
/// order.
pub proof fn lemma_selected_all(rows: Seq<(Seq<char>, Seq<Seq<char>>)>)
    ensures
        selected(rows, RowFilter::All) == data_fields(rows),
    decreases rows.len(),
{
    if rows.len() > 0 {
        lemma_selected_all(rows.drop_last());
    }
}

/// The fields of each row reference.
pub open spec fn field_rows(v: Seq<&Vec<String>>) -> Seq<Seq<Seq<char>>> {
    v.map_values(|f: &Vec<String>| texts(f@))
}

proof fn lemma_table_rows_first(tables: Seq<Table>, name: Seq<char>, i: int)
    requires
        0 <= i < tables.len(),
        tables[i].name@ == name,
        forall|a: int| 0 <= a < i ==> #[trigger] tables[a].name@ != name,
    ensures
        table_rows(tables, name) == rows_view(tables[i].rows@),
    decreases i,
{
    if i > 0 {
        let t = tables.drop_first();
        assert(tables[0].name@ != name);
        assert(t[i - 1] == tables[i]);
        assert forall|a: int| 0 <= a < i - 1 implies #[trigger] t[a].name@ != name by {
            assert(t[a] == tables[a + 1]);
        }
        lemma_table_rows_first(t, name, i - 1);
    }
}

/// Whether a row's fields pass `filter`, computed.
fn row_passes(filter: &RowFilter, fields: &Vec<String>) -> (b: bool)
    ensures
        b == keeps(*filter, texts(fields@)),
{
    proof {
        reveal_strlit("");
    }
    match filter {
        RowFilter::All => true,
        RowFilter::ColumnIs(col, v) => str_eq(crate::text::c(fields.as_slice(), *col), *v),
        RowFilter::ColumnIsOneOf(col, a, b) => {
            let x = crate::text::c(fields.as_slice(), *col);
            str_eq(x, *a) || str_eq(x, *b)
        },
        RowFilter::ColumnNotStartingWith(col, p) => !starts_with(
            crate::text::c(fields.as_slice(), *col),
            *p,
        ),
        RowFilter::ColumnNotEmpty(col) => crate::text::c(fields.as_slice(), *col).unicode_len()
            > 0,
    }
}

impl Groups {
    /// The position of table `name`, if there is one.
    pub fn find_table(&self, name: &str) -> (r: Option<usize>)
        ensures
            r matches Some(i) ==> i < self.tables@.len() && rows_view(self.tables@[i as int].rows@)
                == self.rows(name@),
            r is None ==> self.rows(name@) == Seq::<(Seq<char>, Seq<Seq<char>>)>::empty(),
    {
        let mut i: usize = 0;
        while i < self.tables.len()
            invariant
                i <= self.tables.len(),
                forall|a: int| 0 <= a < i ==> #[trigger] self.tables@[a].name@ != name@,
            decreases self.tables.len() - i,
        {
            if str_eq(self.tables[i].name.as_str(), name) {
                proof {
                    lemma_table_rows_first(self.tables@, name@, i as int);
                }
                return Some(i);
            }
            i = i + 1;
        }
        proof {
            lemma_table_rows_absent(self.tables@, name@);
        }
        None
    }
}

/// The fields of the `Data` rows of table `table` that `filter` keeps, in order.
pub fn select_rows<'a>(groups: &'a Groups, table: &str, filter: &RowFilter) -> (r: Vec<
    &'a Vec<String>,
>)
    ensures
        field_rows(r@) == selected(groups.rows(table@), *filter),
{
    let mut r: Vec<&'a Vec<String>> = Vec::new();
    match groups.find_table(table) {
        None => {
            assert(field_rows(r@) =~= selected(groups.rows(table@), *filter));
            r
        },
        Some(t) => {
            let rows = &groups.tables[t].rows;
            let ghost rv = rows_view(rows@);
            let mut i: usize = 0;
            while i < rows.len()
                invariant
                    i <= rows.len(),
                    rv == rows_view(rows@),
                    field_rows(r@) == selected(rv.take(i as int), *filter),
                decreases rows.len() - i,
            {
                proof {
                    reveal_strlit("Data");
                    assert(rv.take(i + 1).drop_last() =~= rv.take(i as int));
                    assert(rv.take(i + 1).last() == rv[i as int]);
                    assert(rv[i as int] == row_view(rows@[i as int]));
                }
                let row = &rows[i];
                if str_eq(row.kind.as_str(), "Data") && row_passes(filter, &row.fields) {
                    let ghost old_r = r@;
                    r.push(&row.fields);
                    proof {
                        assert(field_rows(r@) =~= field_rows(old_r).push(texts(row.fields@)));
                    }
                }
                i = i + 1;
            }
            assert(rv.take(rows.len() as int) =~= rv);
            r
        },
    }
}

/// The fields of all `Data` rows of table `table`, in order.
pub fn data_rows<'a>(groups: &'a Groups, table: &str) -> (r: Vec<&'a Vec<String>>)
    ensures
        field_rows(r@) == selected(groups.rows(table@), RowFilter::All),
{
    select_rows(groups, table, &RowFilter::All)
}

/// The fields of the first row of table `table`, whatever its kind.
pub fn first_row_fields<'a>(groups: &'a Groups, table: &str) -> (r: Option<&'a Vec<String>>)
    ensures
        r matches Some(f) ==> groups.rows(table@).len() > 0 && texts(f@) == groups.rows(
            table@,
        )[0].1,
        r is None ==> groups.rows(table@).len() == 0,
{
    match groups.find_table(table) {
        None => None,
        Some(t) => {
            let rows = &groups.tables[t].rows;
            if rows.len() == 0 {
                None
            } else {
                assert(rows_view(rows@)[0] == row_view(rows@[0]));
                Some(&rows[0].fields)
            }
        },
    }
}

} // verus!