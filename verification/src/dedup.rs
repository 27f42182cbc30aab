//! How a reader resolves rows that share a key: the row that comes last in
//! what it was handed stands for the key.

use vstd::prelude::*;
use crate::batch::{BatchView, Cell, Datum, RecordBatch, Row, Value};
use crate::flight::batches_view;

verus! {

/// The rows of `batches`, batch after batch.
pub open spec fn rows_of(batches: Seq<BatchView>) -> Seq<Seq<(Seq<char>, Datum)>>
    decreases batches.len(),
{
    if batches.len() == 0 {
        Seq::empty()
    } else {
        rows_of(batches.drop_last()) + batches.last().rows
    }
}

/// Whether a cell belongs to the key of its row: tags and the time do.
pub open spec fn is_key_cell(cell: (Seq<char>, Datum)) -> bool {
    cell.1 is Tag || cell.1 is Time
}

/// The key of a row: its tags and its time, in the order of the row.
pub open spec fn dedup_key(row: Seq<(Seq<char>, Datum)>) -> Seq<(Seq<char>, Datum)> {
    row.filter(|cell: (Seq<char>, Datum)| is_key_cell(cell))
}

/// The row that stands for `key`: the last of `rows` that has it.
pub open spec fn latest(rows: Seq<Seq<(Seq<char>, Datum)>>, key: Seq<(Seq<char>, Datum)>) -> Option<
    Seq<(Seq<char>, Datum)>,
>
    decreases rows.len(),
{
    if rows.len() == 0 {
        None
    } else if dedup_key(rows.last()) == key {
        Some(rows.last())
    } else {
        latest(rows.drop_last(), key)
    }
}

/// The rows of two lists of batches, one after the other, are the rows of
/// the first followed by the rows of the second.
pub proof fn lemma_rows_of_concat(a: Seq<BatchView>, b: Seq<BatchView>)
    ensures
        rows_of(a + b) == rows_of(a) + rows_of(b),
    decreases b.len(),
{
    if b.len() == 0 {
        assert(a + b =~= a);
        assert(rows_of(a) + rows_of(b) =~= rows_of(a));
    } else {
        lemma_rows_of_concat(a, b.drop_last());
        assert((a + b).drop_last() =~= a + b.drop_last());
        assert((a + b).last() == b.last());
        assert(rows_of(a + b) =~= rows_of(a) + rows_of(b));
    }
}

/// The rows of a single batch are its rows.
pub proof fn lemma_rows_of_one(batch: BatchView)
    ensures
        rows_of(seq![batch]) == batch.rows,
{
    let one = seq![batch];
    assert(one.drop_last() =~= Seq::<BatchView>::empty());
    assert(rows_of(one.drop_last()) =~= Seq::<Seq<(Seq<char>, Datum)>>::empty());
    assert(one.last() == batch);
    assert(rows_of(one) =~= batch.rows);
}

/// Rows that come later win: where the later rows have the key, their last
/// such row stands for it, and only else a row of the earlier ones.
pub proof fn law_later_rows_win(
    earlier: Seq<Seq<(Seq<char>, Datum)>>,
    later: Seq<Seq<(Seq<char>, Datum)>>,
    key: Seq<(Seq<char>, Datum)>,
)
    ensures
        latest(earlier + later, key) == (if latest(later, key).is_some() {
            latest(later, key)
        } else {
            latest(earlier, key)
        }),
    decreases later.len(),
{
    if later.len() == 0 {
        assert(earlier + later =~= earlier);
    } else {
        assert((earlier + later).drop_last() =~= earlier + later.drop_last());
        assert((earlier + later).last() == later.last());
        law_later_rows_win(earlier, later.drop_last(), key);
    }
}

/// Whether a cell belongs to the key of its row.
pub fn is_key(cell: &Cell) -> (b: bool)
    ensures
        b == is_key_cell(cell@),
{
    match cell.value {
        Value::Tag(_) => true,
        Value::Time(_) => true,
        _ => false,
    }
}

/// The key of a row, as a row of its own.
pub fn key_of(row: &Row) -> (key: Row)
    ensures
        key@ == dedup_key(row@),
{
    let mut cells: Vec<Cell> = Vec::new();
    let mut k: usize = 0;
    proof {
        reveal(Seq::filter);
        assert(row@.take(0) =~= Seq::<(Seq<char>, Datum)>::empty());
    }
    while k < row.cells.len()
        invariant
            k <= row.cells.len(),
            (Row { cells })@ == dedup_key(row@.take(k as int)),
        decreases row.cells.len() - k,
    {
        let ghost before = (Row { cells })@;
        proof {
            reveal(Seq::filter);
            assert(row@.take(k + 1).drop_last() =~= row@.take(k as int));
            assert(row@.take(k + 1).last() == row.cells[k as int]@);
        }
        if is_key(&row.cells[k]) {
            cells.push(row.cells[k].duplicate());
            assert((Row { cells })@ =~= before.push(row.cells[k as int]@));
        }
        k += 1;
    }
    assert(row@.take(k as int) =~= row@);
    Row { cells }
}

/// The view of a row that may be absent.
pub open spec fn row_view(row: Option<Row>) -> Option<Seq<(Seq<char>, Datum)>> {
    match row {
        Some(r) => Some(r@),
        None => None,
    }
}

/// The row that stands for `key` among the rows of `batches`, read batch
/// after batch: a copy of the last row that has the key, if there is one.
pub fn latest_row(batches: &Vec<RecordBatch>, key: &Row) -> (found: Option<Row>)
    ensures
        row_view(found) == latest(rows_of(batches_view(batches@)), key@),
{
    let ghost all = batches_view(batches@);
    let mut found: Option<Row> = None;
    let mut i: usize = 0;
    assert(all.take(0) =~= Seq::<BatchView>::empty());
    while i < batches.len()
        invariant
            i <= batches.len(),
            all == batches_view(batches@),
            row_view(found) == latest(rows_of(all.take(i as int)), key@),
        decreases batches.len() - i,
    {
        let batch = &batches[i];
        let ghost before = rows_of(all.take(i as int));
        let mut j: usize = 0;
        assert(before + batch@.rows.take(0) =~= before);
        while j < batch.rows.len()
            invariant
                j <= batch.rows.len(),
                row_view(found) == latest(before + batch@.rows.take(j as int), key@),
            decreases batch.rows.len() - j,
        {
            proof {
                let next = before + batch@.rows.take(j + 1);
                assert(next.drop_last() =~= before + batch@.rows.take(j as int));
                assert(next.last() == batch.rows[j as int]@);
            }
            if key_of(&batch.rows[j]).same_as(key) {
                found = Some(batch.rows[j].duplicate());
            }
            j += 1;
        }
        proof {
            assert(batch@.rows.take(j as int) =~= batch@.rows);
            assert(all.take(i + 1).drop_last() =~= all.take(i as int));
            assert(all.take(i + 1).last() == batch@);
        }
        i += 1;
    }
    assert(all.take(i as int) =~= all);
    found
}

} // verus!
