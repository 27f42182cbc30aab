//! The row model: typed cell values, rows, schemas and batches of rows.
//!
//! A row is a list of cells, each naming its column and carrying a typed
//! value. A schema lists the columns seen so far with their types, in order
//! of first appearance. Two writes are compatible when no column name is
//! given two different types.

use vstd::prelude::*;

verus! {

/// The logical type of a column.
#[derive(Clone, Copy, Debug, PartialEq, Eq, Structural)]
pub enum ColumnType {
    Tag,
    Bool,
    I64,
    U64,
    F64,
    Text,
    Time,
}

/// One cell value. A float is held by its IEEE-754 bit pattern.
#[derive(Clone, Debug, PartialEq, Eq)]
pub enum Value {
    Tag(String),
    Bool(bool),
    I64(i64),
    U64(u64),
    F64(u64),
    Text(String),
    Time(i64),
}

/// The mathematical value of a cell.
pub enum Datum {
    Tag(Seq<char>),
    Bool(bool),
    I64(i64),
    U64(u64),
    F64(u64),
    Text(Seq<char>),
    Time(i64),
}

impl Datum {
    /// The column type that this value belongs to.
    pub open spec fn kind(self) -> ColumnType {
        match self {
            Datum::Tag(_) => ColumnType::Tag,
            Datum::Bool(_) => ColumnType::Bool,
            Datum::I64(_) => ColumnType::I64,
            Datum::U64(_) => ColumnType::U64,
            Datum::F64(_) => ColumnType::F64,
            Datum::Text(_) => ColumnType::Text,
            Datum::Time(_) => ColumnType::Time,
        }
    }
}

impl View for Value {
    type V = Datum;

    open spec fn view(&self) -> Datum {
        match self {
            Value::Tag(s) => Datum::Tag(s@),
            Value::Bool(b) => Datum::Bool(*b),
            Value::I64(i) => Datum::I64(*i),
            Value::U64(u) => Datum::U64(*u),
            Value::F64(f) => Datum::F64(*f),
            Value::Text(s) => Datum::Text(s@),
            Value::Time(t) => Datum::Time(*t),
        }
    }
}

impl Value {
    /// The column type that this value belongs to.
    pub fn kind(&self) -> (k: ColumnType)
        ensures
            k == self@.kind(),
    {
        match self {
            Value::Tag(_) => ColumnType::Tag,
            Value::Bool(_) => ColumnType::Bool,
            Value::I64(_) => ColumnType::I64,
            Value::U64(_) => ColumnType::U64,
            Value::F64(_) => ColumnType::F64,
            Value::Text(_) => ColumnType::Text,
            Value::Time(_) => ColumnType::Time,
        }
    }

    /// Whether two values are the same: of one type and equal.
    pub fn same_as(&self, other: &Value) -> (b: bool)
        ensures
            b == (self@ == other@),
    {
        match self {
            Value::Tag(a) => match other {
                Value::Tag(b) => *a == *b,
                _ => false,
            },
            Value::Bool(a) => match other {
                Value::Bool(b) => *a == *b,
                _ => false,
            },
            Value::I64(a) => match other {
                Value::I64(b) => *a == *b,
                _ => false,
            },
            Value::U64(a) => match other {
                Value::U64(b) => *a == *b,
                _ => false,
            },
            Value::F64(a) => match other {
                Value::F64(b) => *a == *b,
                _ => false,
            },
            Value::Text(a) => match other {
                Value::Text(b) => *a == *b,
                _ => false,
            },
            Value::Time(a) => match other {
                Value::Time(b) => *a == *b,
                _ => false,
            },
        }
    }

    /// A copy of this value.
    pub fn duplicate(&self) -> (v: Value)
        ensures
            v@ == self@,
    {
        match self {
            Value::Tag(s) => Value::Tag(s.clone()),
            Value::Bool(b) => Value::Bool(*b),
            Value::I64(i) => Value::I64(*i),
            Value::U64(u) => Value::U64(*u),
            Value::F64(f) => Value::F64(*f),
            Value::Text(s) => Value::Text(s.clone()),
            Value::Time(t) => Value::Time(*t),
        }
    }
}

/// One value of a row, with the name of its column.
#[derive(Clone, Debug, PartialEq, Eq)]
pub struct Cell {
    pub column: String,
    pub value: Value,
}

impl View for Cell {
    type V = (Seq<char>, Datum);

    open spec fn view(&self) -> (Seq<char>, Datum) {
        (self.column@, self.value@)
    }
}

impl Cell {
    pub fn new(column: String, value: Value) -> (c: Cell)
        ensures
            c@ == (column@, value@),
    {
        Cell { column, value }
    }

    /// Whether two cells are the same: of one column, with the same value.
    pub fn same_as(&self, other: &Cell) -> (b: bool)
        ensures
            b == (self@ == other@),
    {
        self.column == other.column && self.value.same_as(&other.value)
    }

    /// A copy of this cell.
    pub fn duplicate(&self) -> (c: Cell)
        ensures
            c@ == self@,
    {
        Cell { column: self.column.clone(), value: self.value.duplicate() }
    }
}

/// One written row: its cells in the order they were given.
#[derive(Clone, Debug, PartialEq, Eq)]
pub struct Row {
    pub cells: Vec<Cell>,
}

impl View for Row {
    type V = Seq<(Seq<char>, Datum)>;

    open spec fn view(&self) -> Seq<(Seq<char>, Datum)> {
        Seq::new(self.cells.len() as nat, |k: int| self.cells[k]@)
    }
}

impl Row {
    pub fn new(cells: Vec<Cell>) -> (r: Row)
        ensures
            r.cells == cells,
    {
        Row { cells }
    }

    /// Whether two rows are the same: the same cells in the same order.
    pub fn same_as(&self, other: &Row) -> (b: bool)
        ensures
            b == (self@ == other@),
    {
        if self.cells.len() != other.cells.len() {
            assert(self@.len() != other@.len());
            return false;
        }
        let mut k: usize = 0;
        while k < self.cells.len()
            invariant
                k <= self.cells.len(),
                self.cells.len() == other.cells.len(),
                forall|j: int| 0 <= j < k ==> self@[j] == other@[j],
            decreases self.cells.len() - k,
        {
            if !self.cells[k].same_as(&other.cells[k]) {
                assert(self@[k as int] != other@[k as int]);
                return false;
            }
            k += 1;
        }
        assert(self@ =~= other@);
        true
    }

    /// A copy of this row.
    pub fn duplicate(&self) -> (r: Row)
        ensures
            r@ == self@,
    {
        let mut cells: Vec<Cell> = Vec::new();
        let mut k: usize = 0;
        while k < self.cells.len()
            invariant
                k <= self.cells.len(),
                cells.len() == k,
                forall|j: int| 0 <= j < k ==> cells[j]@ == self.cells[j]@,
            decreases self.cells.len() - k,
        {
            cells.push(self.cells[k].duplicate());
            k += 1;
        }
        let r = Row { cells };
        assert(r@ =~= self@);
        r
    }
}

/// The views of a list of rows.
pub open spec fn rows_view(rows: Seq<Row>) -> Seq<Seq<(Seq<char>, Datum)>> {
    Seq::new(rows.len(), |r: int| rows[r]@)
}

/// The columns that a row names, each with the type of the value given.
pub open spec fn row_columns(row: Seq<(Seq<char>, Datum)>) -> Seq<(Seq<char>, ColumnType)> {
    Seq::new(row.len(), |k: int| (row[k].0, row[k].1.kind()))
}

/// One column of a schema.
#[derive(Clone, Debug, PartialEq, Eq)]
pub struct ColumnSchema {
    pub name: String,
    pub kind: ColumnType,
}

/// Some column of `cols` has this name.
pub open spec fn has_name(cols: Seq<(Seq<char>, ColumnType)>, name: Seq<char>) -> bool {
    exists|i: int| 0 <= i < cols.len() && (#[trigger] cols[i]).0 == name
}

/// Some column of `cols` has this name and this type.
pub open spec fn has_column(cols: Seq<(Seq<char>, ColumnType)>, col: (Seq<char>, ColumnType)) -> bool {
    exists|i: int| 0 <= i < cols.len() && #[trigger] cols[i] == col
}

/// No two columns of `cols` share a name.
pub open spec fn distinct_names(cols: Seq<(Seq<char>, ColumnType)>) -> bool {
    forall|i: int, j: int|
        0 <= i < j < cols.len() ==> (#[trigger] cols[i]).0 != (#[trigger] cols[j]).0
}

/// `col` does not give a name of `cols` another type.
pub open spec fn accepts(cols: Seq<(Seq<char>, ColumnType)>, col: (Seq<char>, ColumnType)) -> bool {
    forall|i: int| 0 <= i < cols.len() && (#[trigger] cols[i]).0 == col.0 ==> cols[i].1 == col.1
}

/// `cols`, with `col` added at the end unless its name is already there.
pub open spec fn with_column(cols: Seq<(Seq<char>, ColumnType)>, col: (Seq<char>, ColumnType)) -> Seq<
    (Seq<char>, ColumnType),
> {
    if has_name(cols, col.0) {
        cols
    } else {
        cols.push(col)
    }
}

/// `cols` after the columns of `extra` were added one by one, or `None` if
/// one of them gives a name a type other than the one it already has.
pub open spec fn merged(cols: Seq<(Seq<char>, ColumnType)>, extra: Seq<(Seq<char>, ColumnType)>) -> Option<
    Seq<(Seq<char>, ColumnType)>,
>
    decreases extra.len(),
{
    if extra.len() == 0 {
        Some(cols)
    } else {
        match merged(cols, extra.drop_last()) {
            Some(m) => if accepts(m, extra.last()) {
                Some(with_column(m, extra.last()))
            } else {
                None
            },
            None => None,
        }
    }
}

/// Every cell of `row` has its column in `cols`, with the type of its value.
pub open spec fn row_fits(cols: Seq<(Seq<char>, ColumnType)>, row: Seq<(Seq<char>, Datum)>) -> bool {
    forall|k: int| 0 <= k < row.len() ==> has_column(cols, #[trigger] row_columns(row)[k])
}

/// Every row of `rows` fits `cols`.
pub open spec fn rows_fit(cols: Seq<(Seq<char>, ColumnType)>, rows: Seq<Seq<(Seq<char>, Datum)>>) -> bool {
    forall|r: int| 0 <= r < rows.len() ==> row_fits(cols, #[trigger] rows[r])
}

/// The columns of a batch, with their types, in order of first appearance.
#[derive(Clone, Debug, PartialEq, Eq)]
pub struct Schema {
    pub columns: Vec<ColumnSchema>,
}

impl View for Schema {
    type V = Seq<(Seq<char>, ColumnType)>;

    open spec fn view(&self) -> Seq<(Seq<char>, ColumnType)> {
        Seq::new(self.columns.len() as nat, |i: int| (self.columns[i].name@, self.columns[i].kind))
    }
}

impl Schema {
    /// The schema without columns.
    pub fn new() -> (s: Schema)
        ensures
            s@ == Seq::<(Seq<char>, ColumnType)>::empty(),
    {
        let s = Schema { columns: Vec::new() };
        assert(s@ =~= Seq::<(Seq<char>, ColumnType)>::empty());
        s
    }

    /// The number of columns.
    pub fn len(&self) -> (n: usize)
        ensures
            n == self@.len(),
    {
        self.columns.len()
    }

    /// A copy of this schema.
    pub fn duplicate(&self) -> (s: Schema)
        ensures
            s@ == self@,
    {
        let mut columns: Vec<ColumnSchema> = Vec::new();
        let mut i: usize = 0;
        while i < self.columns.len()
            invariant
                i <= self.columns.len(),
                columns.len() == i,
                forall|j: int|
                    0 <= j < i ==> columns[j].name@ == self.columns[j].name@ && columns[j].kind
                        == self.columns[j].kind,
            decreases self.columns.len() - i,
        {
            columns.push(ColumnSchema { name: self.columns[i].name.clone(), kind: self.columns[i].kind });
            i += 1;
        }
        let s = Schema { columns };
        assert(s@ =~= self@);
        s
    }

    /// The place of the first column with this name.
    pub fn find(&self, name: &String) -> (r: Option<usize>)
        ensures
            match r {
                Some(i) => i < self@.len() && self@[i as int].0 == name@ && forall|j: int|
                    0 <= j < i ==> (#[trigger] self@[j]).0 != name@,
                None => !has_name(self@, name@),
            },
    {
        let mut i: usize = 0;
        while i < self.columns.len()
            invariant
                i <= self.columns.len(),
                forall|j: int| 0 <= j < i ==> (#[trigger] self@[j]).0 != name@,
            decreases self.columns.len() - i,
        {
            if self.columns[i].name == *name {
                return Some(i);
            }
            i += 1;
        }
        None
    }

    /// Whether two schemas list the same columns with the same types in the
    /// same order.
    pub fn same_as(&self, other: &Schema) -> (b: bool)
        ensures
            b == (self@ == other@),
    {
        if self.columns.len() != other.columns.len() {
            return false;
        }
        let mut i: usize = 0;
        while i < self.columns.len()
            invariant
                i <= self.columns.len(),
                self.columns.len() == other.columns.len(),
                forall|j: int| 0 <= j < i ==> self@[j] == other@[j],
            decreases self.columns.len() - i,
        {
            if !(self.columns[i].name == other.columns[i].name) || self.columns[i].kind
                != other.columns[i].kind {
                assert(self@[i as int] != other@[i as int]);
                return false;
            }
            i += 1;
        }
        assert(self@ =~= other@);
        true
    }

    /// No two columns share a name.
    pub open spec fn wf(&self) -> bool {
        distinct_names(self@)
    }

    /// Adds the column `name` of type `kind` unless the name is there
    /// already. Refuses, changing nothing, when the name is there with
    /// another type.
    pub fn add_column(&mut self, name: &String, kind: ColumnType) -> (ok: bool)
        requires
            old(self).wf(),
        ensures
            final(self).wf(),
            ok == accepts(old(self)@, (name@, kind)),
            ok ==> final(self)@ == with_column(old(self)@, (name@, kind)),
            !ok ==> final(self)@ == old(self)@,
    {
        match self.find(name) {
            Some(i) => {
                assert(has_name(self@, name@));
                self.columns[i].kind == kind
            },
            None => {
                self.columns.push(ColumnSchema { name: name.clone(), kind });
                assert(self@ =~= old(self)@.push((name@, kind)));
                true
            },
        }
    }

    /// Adds the columns of `other` one by one, all or none of them: none
    /// when one of them gives a name a type other than the one it has.
    pub fn merge(&mut self, other: &Schema) -> (ok: bool)
        requires
            old(self).wf(),
        ensures
            final(self).wf(),
            ok == merged(old(self)@, other@).is_some(),
            ok ==> final(self)@ == merged(old(self)@, other@).unwrap(),
            !ok ==> final(self)@ == old(self)@,
    {
        let mut work = self.duplicate();
        let mut j: usize = 0;
        while j < other.columns.len()
            invariant
                j <= other.columns.len(),
                self.wf(),
                work.wf(),
                merged(self@, other@.take(j as int)) == Some(work@),
            decreases other.columns.len() - j,
        {
            let ok = work.add_column(&other.columns[j].name, other.columns[j].kind);
            proof {
                let next = other@.take(j + 1);
                assert(next.drop_last() =~= other@.take(j as int));
                assert(next.last() == other@[j as int]);
                if !ok {
                    lemma_merged_prefix(self@, other@, j + 1);
                }
            }
            if !ok {
                return false;
            }
            j += 1;
        }
        assert(other@.take(j as int) =~= other@);
        *self = work;
        true
    }

    /// Adds the columns that the cells of `row` name, one by one, all or
    /// none of them, as `merge` does.
    pub fn merge_row(&mut self, row: &Row) -> (ok: bool)
        requires
            old(self).wf(),
        ensures
            final(self).wf(),
            ok == merged(old(self)@, row_columns(row@)).is_some(),
            ok ==> final(self)@ == merged(old(self)@, row_columns(row@)).unwrap(),
            !ok ==> final(self)@ == old(self)@,
    {
        let ghost extra = row_columns(row@);
        let mut work = self.duplicate();
        let mut k: usize = 0;
        while k < row.cells.len()
            invariant
                k <= row.cells.len(),
                extra == row_columns(row@),
                self.wf(),
                work.wf(),
                merged(self@, extra.take(k as int)) == Some(work@),
            decreases row.cells.len() - k,
        {
            let kind = row.cells[k].value.kind();
            let ok = work.add_column(&row.cells[k].column, kind);
            proof {
                let next = extra.take(k + 1);
                assert(next.drop_last() =~= extra.take(k as int));
                assert(next.last() == extra[k as int]);
                if !ok {
                    lemma_merged_prefix(self@, extra, k + 1);
                }
            }
            if !ok {
                return false;
            }
            k += 1;
        }
        assert(extra.take(k as int) =~= extra);
        *self = work;
        true
    }
}

/// Once a prefix of `extra` is refused, all of `extra` is.
pub proof fn lemma_merged_prefix(
    cols: Seq<(Seq<char>, ColumnType)>,
    extra: Seq<(Seq<char>, ColumnType)>,
    n: int,
)
    requires
        0 <= n <= extra.len(),
        merged(cols, extra.take(n)).is_none(),
    ensures
        merged(cols, extra).is_none(),
    decreases extra.len(),
{
    if n == extra.len() {
        assert(extra.take(n) =~= extra);
    } else {
        assert(extra.drop_last().take(n) =~= extra.take(n));
        lemma_merged_prefix(cols, extra.drop_last(), n);
    }
}

/// What a merge keeps: the columns it started from, in their places, and
/// every column that was added, each name once.
pub proof fn lemma_merged_covers(cols: Seq<(Seq<char>, ColumnType)>, extra: Seq<(Seq<char>, ColumnType)>)
    requires
        merged(cols, extra).is_some(),
    ensures
        cols.len() <= merged(cols, extra).unwrap().len(),
        forall|i: int| 0 <= i < cols.len() ==> merged(cols, extra).unwrap()[i] == #[trigger] cols[i],
        forall|k: int| 0 <= k < extra.len() ==> has_column(merged(cols, extra).unwrap(), #[trigger] extra[k]),
        distinct_names(cols) ==> distinct_names(merged(cols, extra).unwrap()),
    decreases extra.len(),
{
    if extra.len() > 0 {
        let before = merged(cols, extra.drop_last()).unwrap();
        let last = extra.last();
        let after = merged(cols, extra).unwrap();
        lemma_merged_covers(cols, extra.drop_last());
        assert(after == with_column(before, last));
        if has_name(before, last.0) {
            let i = choose|i: int| 0 <= i < before.len() && (#[trigger] before[i]).0 == last.0;
            assert(before[i] == last);
        } else {
            assert(after[after.len() - 1] == last);
        }
        assert forall|k: int| 0 <= k < extra.len() implies has_column(after, #[trigger] extra[k]) by {
            if k < extra.len() - 1 {
                assert(extra.drop_last()[k] == extra[k]);
                let i = choose|i: int| 0 <= i < before.len() && #[trigger] before[i] == extra[k];
                assert(after[i] == extra[k]);
            }
        }
    }
}

/// Every column that a merge ends with comes from the columns it started
/// from or from those that were added.
pub proof fn lemma_merged_origin(cols: Seq<(Seq<char>, ColumnType)>, extra: Seq<(Seq<char>, ColumnType)>)
    requires
        merged(cols, extra).is_some(),
    ensures
        forall|i: int|
            0 <= i < merged(cols, extra).unwrap().len() ==> has_column(
                cols,
                #[trigger] merged(cols, extra).unwrap()[i],
            ) || has_column(extra, merged(cols, extra).unwrap()[i]),
    decreases extra.len(),
{
    let after = merged(cols, extra).unwrap();
    if extra.len() == 0 {
        assert forall|i: int| 0 <= i < after.len() implies has_column(cols, #[trigger] after[i]) by {
            assert(cols[i] == after[i]);
        }
    } else {
        let head = extra.drop_last();
        let before = merged(cols, head).unwrap();
        lemma_merged_origin(cols, head);
        assert forall|i: int| 0 <= i < after.len() implies has_column(cols, #[trigger] after[i])
            || has_column(extra, after[i]) by {
            if i < before.len() {
                assert(after[i] == before[i]);
                if has_column(head, before[i]) {
                    let j = choose|j: int| 0 <= j < head.len() && #[trigger] head[j] == before[i];
                    assert(extra[j] == before[i]);
                }
            } else {
                assert(after[i] == extra[extra.len() - 1]);
            }
        }
    }
}

/// No name of `cols` has another type in `extra`, and no name has two types
/// within `extra`.
pub open spec fn compatible(cols: Seq<(Seq<char>, ColumnType)>, extra: Seq<(Seq<char>, ColumnType)>) -> bool {
    &&& forall|i: int, j: int|
        0 <= i < cols.len() && 0 <= j < extra.len() && (#[trigger] cols[i]).0 == (#[trigger] extra[j]).0
            ==> cols[i].1 == extra[j].1
    &&& forall|j: int, k: int|
        0 <= j < k < extra.len() && (#[trigger] extra[j]).0 == (#[trigger] extra[k]).0 ==> extra[j].1
            == extra[k].1
}

/// Columns are refused exactly when they give a name two types: one that
/// the name has already, or two among themselves.
pub proof fn law_merged_iff_compatible(cols: Seq<(Seq<char>, ColumnType)>, extra: Seq<(Seq<char>, ColumnType)>)
    ensures
        merged(cols, extra).is_some() <==> compatible(cols, extra),
    decreases extra.len(),
{
    if extra.len() > 0 {
        let head = extra.drop_last();
        let last = extra.last();
        law_merged_iff_compatible(cols, head);
        if merged(cols, head).is_some() {
            let before = merged(cols, head).unwrap();
            lemma_merged_covers(cols, head);
            lemma_merged_origin(cols, head);
            assert forall|i: int, j: int|
                0 <= i < cols.len() && 0 <= j < head.len() && (#[trigger] cols[i]).0 == (#[trigger] head[j]).0
                implies cols[i].1 == head[j].1 by {}
            if accepts(before, last) {
                assert forall|i: int, j: int|
                    0 <= i < cols.len() && 0 <= j < extra.len() && (#[trigger] cols[i]).0 == (#[trigger] extra[j]).0
                    implies cols[i].1 == extra[j].1 by {
                    if j < head.len() {
                        assert(extra[j] == head[j]);
                    } else {
                        assert(before[i] == cols[i]);
                    }
                }
                assert forall|j: int, k: int|
                    0 <= j < k < extra.len() && (#[trigger] extra[j]).0 == (#[trigger] extra[k]).0
                    implies extra[j].1 == extra[k].1 by {
                    if k < head.len() {
                        assert(extra[j] == head[j]);
                        assert(extra[k] == head[k]);
                    } else {
                        assert(head[j] == extra[j]);
                        assert(has_column(before, head[j]));
                        let x = choose|x: int| 0 <= x < before.len() && #[trigger] before[x] == head[j];
                        assert(before[x].0 == last.0);
                    }
                }
            } else {
                let x = choose|x: int|
                    0 <= x < before.len() && (#[trigger] before[x]).0 == last.0 && before[x].1 != last.1;
                if has_column(cols, before[x]) {
                    let i = choose|i: int| 0 <= i < cols.len() && #[trigger] cols[i] == before[x];
                    assert(cols[i].0 == extra[extra.len() - 1].0);
                } else {
                    let j = choose|j: int| 0 <= j < head.len() && #[trigger] head[j] == before[x];
                    assert(extra[j].0 == extra[extra.len() - 1].0);
                }
            }
        } else {
            if compatible(cols, extra) {
                assert forall|i: int, j: int|
                    0 <= i < cols.len() && 0 <= j < head.len() && (#[trigger] cols[i]).0 == (#[trigger] head[j]).0
                    implies cols[i].1 == head[j].1 by {
                    assert(head[j] == extra[j]);
                }
                assert forall|j: int, k: int|
                    0 <= j < k < head.len() && (#[trigger] head[j]).0 == (#[trigger] head[k]).0
                    implies head[j].1 == head[k].1 by {
                    assert(head[j] == extra[j]);
                    assert(head[k] == extra[k]);
                }
            }
        }
    }
}

/// A row that fits some columns fits every list that holds them all.
pub proof fn lemma_rows_fit_wider(
    cols: Seq<(Seq<char>, ColumnType)>,
    wider: Seq<(Seq<char>, ColumnType)>,
    rows: Seq<Seq<(Seq<char>, Datum)>>,
)
    requires
        rows_fit(cols, rows),
        forall|i: int| 0 <= i < cols.len() ==> has_column(wider, #[trigger] cols[i]),
    ensures
        rows_fit(wider, rows),
{
    assert forall|r: int| 0 <= r < rows.len() implies row_fits(wider, #[trigger] rows[r]) by {
        let row = rows[r];
        assert(row_fits(cols, row));
        assert forall|k: int| 0 <= k < row.len() implies has_column(wider, #[trigger] row_columns(row)[k]) by {
            let c = row_columns(row)[k];
            assert(has_column(cols, c));
            let i = choose|i: int| 0 <= i < cols.len() && #[trigger] cols[i] == c;
            assert(has_column(wider, cols[i]));
        }
    }
}

/// Why a write was refused.
#[derive(Clone, Copy, Debug, PartialEq, Eq, Structural)]
pub enum MergeError {
    /// A column was given a type other than the one it already has.
    ColumnTypeMismatch,
}

/// What a batch holds: its columns and its rows, oldest first.
pub struct BatchView {
    pub schema: Seq<(Seq<char>, ColumnType)>,
    pub rows: Seq<Seq<(Seq<char>, Datum)>>,
}

/// An immutable batch of rows.
#[derive(Clone, Debug, PartialEq, Eq)]
pub struct RecordBatch {
    pub schema: Schema,
    pub rows: Vec<Row>,
}

impl View for RecordBatch {
    type V = BatchView;

    open spec fn view(&self) -> BatchView {
        BatchView { schema: self.schema@, rows: rows_view(self.rows@) }
    }
}

/// A copy of a list of rows.
pub fn duplicate_rows(rows: &Vec<Row>) -> (copy: Vec<Row>)
    ensures
        rows_view(copy@) == rows_view(rows@),
{
    let mut copy: Vec<Row> = Vec::new();
    let mut r: usize = 0;
    while r < rows.len()
        invariant
            r <= rows.len(),
            copy.len() == r,
            forall|j: int| 0 <= j < r ==> copy[j]@ == rows[j]@,
        decreases rows.len() - r,
    {
        copy.push(rows[r].duplicate());
        r += 1;
    }
    assert(rows_view(copy@) =~= rows_view(rows@));
    copy
}

impl RecordBatch {
    pub fn new(schema: Schema, rows: Vec<Row>) -> (b: RecordBatch)
        ensures
            b.schema == schema,
            b.rows == rows,
    {
        RecordBatch { schema, rows }
    }

    /// The number of rows.
    pub fn row_count(&self) -> (n: usize)
        ensures
            n == self@.rows.len(),
    {
        self.rows.len()
    }

    /// A copy of this batch.
    pub fn duplicate(&self) -> (b: RecordBatch)
        ensures
            b@ == self@,
    {
        RecordBatch { schema: self.schema.duplicate(), rows: duplicate_rows(&self.rows) }
    }
}

/// A batch that grows by writes. Its schema has each column name once, and
/// every row fits it.
#[derive(Debug)]
pub struct MutableBatch {
    schema: Schema,
    rows: Vec<Row>,
}

impl View for MutableBatch {
    type V = BatchView;

    closed spec fn view(&self) -> BatchView {
        BatchView { schema: self.schema@, rows: rows_view(self.rows@) }
    }
}

impl MutableBatch {
    /// The schema names each column once and every row fits it.
    pub open spec fn wf(&self) -> bool {
        &&& distinct_names(self@.schema)
        &&& rows_fit(self@.schema, self@.rows)
    }

    /// The batch without rows or columns.
    pub fn new() -> (b: MutableBatch)
        ensures
            b.wf(),
            b@.schema == Seq::<(Seq<char>, ColumnType)>::empty(),
            b@.rows == Seq::<Seq<(Seq<char>, Datum)>>::empty(),
    {
        let b = MutableBatch { schema: Schema::new(), rows: Vec::new() };
        assert(b@.rows =~= Seq::<Seq<(Seq<char>, Datum)>>::empty());
        b
    }

    /// The number of rows.
    pub fn row_count(&self) -> (n: usize)
        ensures
            n == self@.rows.len(),
    {
        self.rows.len()
    }

    /// The columns seen so far.
    pub fn schema(&self) -> (s: &Schema)
        ensures
            s@ == self@.schema,
    {
        &self.schema
    }

    /// Appends one row. The row is refused, and nothing changes, when one of
    /// its cells gives a column a type other than the one the column has,
    /// in this batch or from an earlier cell of the row.
    pub fn push_row(&mut self, row: Row) -> (res: Result<(), MergeError>)
        requires
            old(self).wf(),
        ensures
            final(self).wf(),
            res.is_ok() == merged(old(self)@.schema, row_columns(row@)).is_some(),
            res.is_ok() ==> final(self)@.schema == merged(old(self)@.schema, row_columns(row@)).unwrap()
                && final(self)@.rows == old(self)@.rows.push(row@),
            res.is_err() ==> final(self)@ == old(self)@,
    {
        if !self.schema.merge_row(&row) {
            return Err(MergeError::ColumnTypeMismatch);
        }
        proof {
            lemma_merged_covers(old(self)@.schema, row_columns(row@));
            lemma_rows_fit_wider(old(self)@.schema, self@.schema, old(self)@.rows);
        }
        self.rows.push(row);
        proof {
            assert(self@.rows =~= old(self)@.rows.push(row@));
            assert(row_fits(self@.schema, row@));
        }
        Ok(())
    }

    /// Appends the rows of `other`. All of `other` is refused, and nothing
    /// changes, when it gives a column a type other than the one the column
    /// has here.
    pub fn extend_from(&mut self, other: &MutableBatch) -> (res: Result<(), MergeError>)
        requires
            old(self).wf(),
            other.wf(),
        ensures
            final(self).wf(),
            res.is_ok() == merged(old(self)@.schema, other@.schema).is_some(),
            res.is_ok() ==> final(self)@.schema == merged(old(self)@.schema, other@.schema).unwrap()
                && final(self)@.rows == old(self)@.rows + other@.rows,
            res.is_err() ==> final(self)@ == old(self)@,
    {
        if !self.schema.merge(&other.schema) {
            return Err(MergeError::ColumnTypeMismatch);
        }
        proof {
            lemma_merged_covers(old(self)@.schema, other@.schema);
            lemma_rows_fit_wider(old(self)@.schema, self@.schema, old(self)@.rows);
            lemma_rows_fit_wider(other@.schema, self@.schema, other@.rows);
        }
        let mut r: usize = 0;
        while r < other.rows.len()
            invariant
                r <= other.rows.len(),
                merged(old(self)@.schema, other@.schema).is_some(),
                self@.schema == merged(old(self)@.schema, other@.schema).unwrap(),
                self@.rows == old(self)@.rows + other@.rows.take(r as int),
            decreases other.rows.len() - r,
        {
            let ghost before = self@.rows;
            self.rows.push(other.rows[r].duplicate());
            proof {
                assert(other@.rows[r as int] == other.rows[r as int]@);
                assert(self@.rows =~= before.push(other@.rows[r as int]));
                assert(other@.rows.take(r + 1) =~= other@.rows.take(r as int).push(other@.rows[r as int]));
                assert(self@.rows =~= old(self)@.rows + other@.rows.take(r + 1));
            }
            r += 1;
        }
        proof {
            assert(other@.rows.take(r as int) =~= other@.rows);
            assert forall|i: int| 0 <= i < self@.rows.len() implies row_fits(
                self@.schema,
                #[trigger] self@.rows[i],
            ) by {
                if i >= old(self)@.rows.len() {
                    assert(self@.rows[i] == other@.rows[i - old(self)@.rows.len()]);
                }
            }
        }
        Ok(())
    }

    /// A copy of what the batch holds now.
    pub fn to_record_batch(&self) -> (b: RecordBatch)
        ensures
            b@ == self@,
    {
        RecordBatch { schema: self.schema.duplicate(), rows: duplicate_rows(&self.rows) }
    }

    /// The batch, made immutable.
    pub fn into_record_batch(self) -> (b: RecordBatch)
        ensures
            b@ == self@,
    {
        RecordBatch { schema: self.schema, rows: self.rows }
    }
}

} // verus!
