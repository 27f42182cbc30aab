use ingester::batch::{Cell, ColumnSchema, ColumnType, MergeError, MutableBatch, RecordBatch, Row, Value};
use ingester::dedup::{key_of, latest_row};
use ingester::deferred::{Access, DeferredCell};
use ingester::partition::{PartitionData, SortKey, SortKeyState};
use ingester::query_view::QueryView;

const PARTITION_ID: u64 = 1;

fn city_row(city: &str, people: f64, pigeons: &str, time: i64) -> Row {
    Row::new(vec![
        Cell::new("city".to_string(), Value::Tag(city.to_string())),
        Cell::new("people".to_string(), Value::F64(people.to_bits())),
        Cell::new("pigeons".to_string(), Value::Text(pigeons.to_string())),
        Cell::new("time".to_string(), Value::Time(time)),
    ])
}

fn x_row(x: f64, time: i64) -> Row {
    Row::new(vec![
        Cell::new("x".to_string(), Value::F64(x.to_bits())),
        Cell::new("time".to_string(), Value::Time(time)),
    ])
}

fn batch_of(rows: Vec<Row>) -> MutableBatch {
    let mut b = MutableBatch::new();
    for r in rows {
        b.push_row(r).expect("rows of one shape");
    }
    b
}

fn new_partition() -> PartitionData {
    PartitionData::new(
        PARTITION_ID,
        "platanos".to_string(),
        3,
        DeferredCell::resolved("namespace-bananas".to_string()),
        4,
        DeferredCell::resolved("bananas".to_string()),
        SortKeyState::Provided(None),
    )
}

fn all_rows(batches: &Vec<RecordBatch>) -> Vec<Row> {
    let mut out = Vec::new();
    for b in batches {
        for r in &b.rows {
            out.push(r.clone());
        }
    }
    out
}

// What a reader makes of the rows it was handed: for each key the row that
// stands for it, in the order in which the keys came first.
fn dedup(view: &QueryView) -> Vec<Row> {
    let mut keys: Vec<Row> = Vec::new();
    for r in all_rows(view.record_batches()) {
        let k = key_of(&r);
        if !keys.contains(&k) {
            keys.push(k);
        }
    }
    keys.iter()
        .map(|k| latest_row(view.record_batches(), k).expect("a key of the view"))
        .collect()
}

fn city_schema() -> Vec<ColumnSchema> {
    vec![
        ColumnSchema { name: "city".to_string(), kind: ColumnType::Tag },
        ColumnSchema { name: "people".to_string(), kind: ColumnType::F64 },
        ColumnSchema { name: "pigeons".to_string(), kind: ColumnType::Text },
        ColumnSchema { name: "time".to_string(), kind: ColumnType::Time },
    ]
}

#[test]
fn test_write_read() {
    let mut p = new_partition();

    assert!(p.get_query_data().is_none());

    p.buffer_write(batch_of(vec![city_row("London", 2.0, "millions", 10)]), 1)
        .expect("write should succeed");

    {
        let data = p.get_query_data().expect("should return data");
        assert_eq!(data.partition_id(), PARTITION_ID);
        assert_eq!(data.record_batches().len(), 1);
        assert_eq!(data.record_batches()[0].schema.columns, city_schema());
        assert_eq!(all_rows(data.record_batches()), vec![city_row("London", 2.0, "millions", 10)]);
    }

    p.buffer_write(batch_of(vec![city_row("Madrid", 4.0, "none", 20)]), 2)
        .expect("write should succeed");

    {
        let data = p.get_query_data().expect("should contain data");
        assert_eq!(data.partition_id(), PARTITION_ID);
        assert_eq!(
            all_rows(data.record_batches()),
            vec![city_row("London", 2.0, "millions", 10), city_row("Madrid", 4.0, "none", 20)]
        );
    }
}

#[test]
fn test_persist() {
    let mut p = new_partition();

    assert!(p.get_query_data().is_none());

    p.buffer_write(batch_of(vec![city_row("London", 2.0, "millions", 10)]), 1)
        .expect("write should succeed");

    // Ensure the batch ident is increased after a persist call.
    assert_eq!(p.started_persistence_count(), 0);

    let persisting_data = p.mark_persisting().expect("must contain existing data");
    assert_eq!(persisting_data.partition_id(), PARTITION_ID);
    assert_eq!(persisting_data.record_batches().len(), 1);
    assert_eq!(
        all_rows(persisting_data.record_batches()),
        vec![city_row("London", 2.0, "millions", 10)]
    );
    assert_eq!(p.started_persistence_count(), 1);
    assert_eq!(persisting_data.batch_ident().get(), 1);

    p.buffer_write(batch_of(vec![city_row("Madrid", 4.0, "none", 20)]), 2)
        .expect("write should succeed");

    {
        let data = p.get_query_data().expect("must have data");
        assert_eq!(data.partition_id(), PARTITION_ID);
        assert_eq!(data.record_batches().len(), 2);
        assert_eq!(
            all_rows(data.record_batches()),
            vec![city_row("London", 2.0, "millions", 10), city_row("Madrid", 4.0, "none", 20)]
        );
    }

    assert!(p.can_mark_persisted(&persisting_data));
    p.mark_persisted(persisting_data);

    assert_eq!(p.started_persistence_count(), 1);

    {
        let data = p.get_query_data().expect("must have data");
        assert_eq!(data.partition_id(), PARTITION_ID);
        assert_eq!(data.record_batches().len(), 1);
        assert_eq!(all_rows(data.record_batches()), vec![city_row("Madrid", 4.0, "none", 20)]);
    }

    // The count of freezes went on from 1, whatever was released.
    p.buffer_write(batch_of(vec![city_row("Oslo", 1.0, "few", 30)]), 3)
        .expect("write should succeed");
    assert_eq!(p.mark_persisting().expect("has data").batch_ident().get(), 2);
}

#[test]
fn test_record_batch_ordering() {
    let mut p = new_partition();

    p.buffer_write(batch_of(vec![x_row(1.0, 42)]), 1).expect("write should succeed");
    assert_eq!(p.get_query_data().unwrap().record_batches().len(), 1);
    assert_eq!(dedup(&p.get_query_data().unwrap()), vec![x_row(1.0, 42)]);

    p.buffer_write(batch_of(vec![x_row(2.0, 42)]), 2).expect("write should succeed");
    assert_eq!(p.get_query_data().unwrap().record_batches().len(), 1);
    assert_eq!(dedup(&p.get_query_data().unwrap()), vec![x_row(2.0, 42)]);

    assert_eq!(p.started_persistence_count(), 0);

    let persisting_data1 = p.mark_persisting().unwrap();
    assert_eq!(persisting_data1.record_batches().len(), 1);
    assert_eq!(dedup(persisting_data1.view()), vec![x_row(2.0, 42)]);
    assert_eq!(p.started_persistence_count(), 1);
    assert_eq!(persisting_data1.batch_ident().get(), 1);

    p.buffer_write(batch_of(vec![x_row(3.0, 42)]), 3).expect("write should succeed");
    assert_eq!(p.get_query_data().unwrap().record_batches().len(), 2);
    assert_eq!(dedup(&p.get_query_data().unwrap()), vec![x_row(3.0, 42)]);

    let persisting_data2 = p.mark_persisting().unwrap();
    assert_eq!(persisting_data2.record_batches().len(), 1);
    assert_eq!(dedup(persisting_data2.view()), vec![x_row(3.0, 42)]);
    assert_eq!(p.started_persistence_count(), 2);
    assert_eq!(persisting_data1.batch_ident().get(), 1);
    assert_eq!(persisting_data2.batch_ident().get(), 2);

    p.buffer_write(batch_of(vec![x_row(4.0, 42)]), 3).expect("write should succeed");
    assert_eq!(p.get_query_data().unwrap().record_batches().len(), 3);
    assert_eq!(dedup(&p.get_query_data().unwrap()), vec![x_row(4.0, 42)]);

    // The generation frozen last comes first, the accepting rows last.
    assert_eq!(
        all_rows(p.get_query_data().unwrap().record_batches()),
        vec![x_row(3.0, 42), x_row(1.0, 42), x_row(2.0, 42), x_row(4.0, 42)]
    );

    assert!(p.can_mark_persisted(&persisting_data1));
    p.mark_persisted(persisting_data1);
    assert_eq!(p.get_query_data().unwrap().record_batches().len(), 2);
    assert_eq!(dedup(&p.get_query_data().unwrap()), vec![x_row(4.0, 42)]);

    assert!(p.can_mark_persisted(&persisting_data2));
    p.mark_persisted(persisting_data2);
    assert_eq!(p.get_query_data().unwrap().record_batches().len(), 1);
    assert_eq!(dedup(&p.get_query_data().unwrap()), vec![x_row(4.0, 42)]);

    assert_eq!(p.started_persistence_count(), 2);
}

#[test]
#[should_panic(expected = "out-of-order persist notification received")]
fn test_out_of_order_persist() {
    let mut p = new_partition();

    p.buffer_write(batch_of(vec![x_row(1.0, 42)]), 1).expect("write should succeed");
    let persisting_data1 = p.mark_persisting().unwrap();

    p.buffer_write(batch_of(vec![x_row(3.0, 42)]), 3).expect("write should succeed");
    let persisting_data2 = p.mark_persisting().unwrap();

    // Finish persisting the second batch out-of-order!
    p.try_mark_persisted(persisting_data2)
        .expect("out-of-order persist notification received");

    p.try_mark_persisted(persisting_data1)
        .expect("out-of-order persist notification received");
}

#[test]
fn out_of_order_release_changes_nothing() {
    let mut p = new_partition();
    p.buffer_write(batch_of(vec![x_row(1.0, 42)]), 1).unwrap();
    let h1 = p.mark_persisting().unwrap();
    p.buffer_write(batch_of(vec![x_row(3.0, 42)]), 2).unwrap();
    let h2 = p.mark_persisting().unwrap();

    assert!(!p.can_mark_persisted(&h2));
    let h2 = p.try_mark_persisted(h2).expect_err("the older generation is outstanding");
    assert_eq!(h2.batch_ident().get(), 2);
    assert_eq!(p.get_query_data().unwrap().record_batches().len(), 2);

    assert!(p.try_mark_persisted(h1).is_ok());
    assert!(p.try_mark_persisted(h2).is_ok());
    assert!(p.get_query_data().is_none());
}

#[test]
fn release_without_freeze_is_refused() {
    let mut a = new_partition();
    let mut b = new_partition();
    a.buffer_write(batch_of(vec![x_row(1.0, 42)]), 1).unwrap();
    let h = a.mark_persisting().unwrap();
    assert!(!b.can_mark_persisted(&h));
    assert!(b.try_mark_persisted(h).is_err());
}

#[test]
fn test_update_provided_sort_key() {
    let starting_state = SortKeyState::Provided(Some(SortKey::from_columns(vec![
        "banana".to_string(),
        "time".to_string(),
    ])));

    let mut p = PartitionData::new(
        1,
        "bananas".to_string(),
        42,
        DeferredCell::resolved("namespace-bananas".to_string()),
        1,
        DeferredCell::resolved("platanos".to_string()),
        starting_state,
    );

    let want = Some(SortKey::from_columns(vec![
        "banana".to_string(),
        "platanos".to_string(),
        "time".to_string(),
    ]));
    p.update_sort_key(want.clone());

    assert!(matches!(p.sort_key(), SortKeyState::Provided(_)));
    assert_eq!(p.sort_key().get(), Some(want));
}

#[test]
fn test_update_deferred_sort_key() {
    let starting_state = SortKeyState::Deferred(DeferredCell::new());

    let mut p = PartitionData::new(
        1,
        "bananas".to_string(),
        42,
        DeferredCell::resolved("namespace-bananas".to_string()),
        1,
        DeferredCell::resolved("platanos".to_string()),
        starting_state,
    );
    assert_eq!(p.sort_key().get(), None);

    let want = Some(SortKey::from_columns(vec![
        "banana".to_string(),
        "platanos".to_string(),
        "time".to_string(),
    ]));
    p.update_sort_key(want.clone());

    assert!(matches!(p.sort_key(), SortKeyState::Provided(_)));
    assert_eq!(p.sort_key().get(), Some(want));
}

#[test]
fn deferred_sort_key_is_read_once_resolved() {
    let mut cell = DeferredCell::new();
    cell.resolve(Some(SortKey::from_columns(vec!["terrific".to_string()])));
    let state = SortKeyState::Deferred(cell);
    assert_eq!(
        state.get(),
        Some(Some(SortKey::from_columns(vec!["terrific".to_string()])))
    );
}

#[test]
fn test_non_monotonic_writes() {
    let mut p = new_partition();

    p.buffer_write(batch_of(vec![city_row("London", 2.0, "millions", 10)]), 2)
        .expect("write should succeed");
    let _ = p.buffer_write(batch_of(vec![city_row("Madrid", 2.0, "none", 11)]), 1);

    let data = p.get_query_data().unwrap();
    assert_eq!(
        all_rows(data.record_batches()),
        vec![city_row("London", 2.0, "millions", 10), city_row("Madrid", 2.0, "none", 11)]
    );
}

#[test]
fn test_mark_persisting_no_data() {
    let mut p = new_partition();
    assert!(p.mark_persisting().is_none());
}

#[test]
fn test_mark_persisting_twice() {
    let mut p = new_partition();
    p.buffer_write(batch_of(vec![city_row("London", 2.0, "millions", 10)]), 2)
        .expect("write should succeed");

    assert!(p.mark_persisting().is_some());
    assert!(p.mark_persisting().is_none());
}

#[test]
fn test_empty_partition_no_queryadaptor_panic() {
    let mut p = new_partition();
    assert!(p.get_query_data().is_none());
}

#[test]
fn freeze_of_empty_buffer_leaves_writes_working() {
    let mut p = new_partition();
    assert!(p.mark_persisting().is_none());
    assert!(p.mark_persisting().is_none());
    p.buffer_write(batch_of(vec![x_row(1.0, 1)]), 1).expect("write should succeed");
    assert_eq!(all_rows(p.get_query_data().unwrap().record_batches()), vec![x_row(1.0, 1)]);
    // The freeze that did nothing took no number.
    assert_eq!(p.mark_persisting().unwrap().batch_ident().get(), 1);
}

#[test]
fn later_write_wins_without_freeze() {
    let mut p = new_partition();
    let a = Row::new(vec![
        Cell::new("key".to_string(), Value::Tag("1".to_string())),
        Cell::new("v".to_string(), Value::I64(10)),
    ]);
    let b = Row::new(vec![
        Cell::new("key".to_string(), Value::Tag("1".to_string())),
        Cell::new("v".to_string(), Value::I64(20)),
    ]);
    p.buffer_write(batch_of(vec![a]), 1).unwrap();
    p.buffer_write(batch_of(vec![b.clone()]), 2).unwrap();
    assert_eq!(dedup(&p.get_query_data().unwrap()), vec![b]);
}

#[test]
fn frozen_and_buffered_rows_are_both_read() {
    let mut p = new_partition();
    let g1 = vec![city_row("London", 2.0, "millions", 10), city_row("Madrid", 4.0, "none", 20)];
    let g2 = vec![city_row("London", 3.0, "fewer", 10)];
    p.buffer_write(batch_of(g1.clone()), 1).unwrap();
    let _handle = p.mark_persisting().unwrap();
    p.buffer_write(batch_of(g2.clone()), 2).unwrap();
    let view = p.get_query_data().unwrap();
    assert_eq!(
        all_rows(view.record_batches()),
        vec![g1[0].clone(), g1[1].clone(), g2[0].clone()]
    );
    assert_eq!(dedup(&view), vec![g2[0].clone(), g1[1].clone()]);
}

#[test]
fn write_with_another_type_is_refused_and_changes_nothing() {
    let mut p = new_partition();
    p.buffer_write(batch_of(vec![x_row(1.0, 42)]), 1).unwrap();
    let other = Row::new(vec![
        Cell::new("x".to_string(), Value::Text("one".to_string())),
        Cell::new("time".to_string(), Value::Time(43)),
    ]);
    let res = p.buffer_write(batch_of(vec![other]), 2);
    assert_eq!(res, Err(MergeError::ColumnTypeMismatch));
    assert_eq!(all_rows(p.get_query_data().unwrap().record_batches()), vec![x_row(1.0, 42)]);
    // The write path works as before.
    p.buffer_write(batch_of(vec![x_row(2.0, 43)]), 3).unwrap();
    assert_eq!(
        all_rows(p.get_query_data().unwrap().record_batches()),
        vec![x_row(1.0, 42), x_row(2.0, 43)]
    );
}

#[test]
fn write_with_new_column_widens_the_schema() {
    let mut p = new_partition();
    p.buffer_write(batch_of(vec![x_row(1.0, 42)]), 1).unwrap();
    let wider = Row::new(vec![
        Cell::new("y".to_string(), Value::Bool(true)),
        Cell::new("time".to_string(), Value::Time(43)),
    ]);
    p.buffer_write(batch_of(vec![wider.clone()]), 2).unwrap();
    let view = p.get_query_data().unwrap();
    assert_eq!(
        view.record_batches()[0].schema.columns,
        vec![
            ColumnSchema { name: "x".to_string(), kind: ColumnType::F64 },
            ColumnSchema { name: "time".to_string(), kind: ColumnType::Time },
            ColumnSchema { name: "y".to_string(), kind: ColumnType::Bool },
        ]
    );
    assert_eq!(all_rows(view.record_batches()), vec![x_row(1.0, 42), wider]);
}

#[test]
fn accessors_return_the_identity() {
    let p = new_partition();
    assert_eq!(p.partition_id(), 1);
    assert_eq!(p.partition_key(), "platanos");
    assert_eq!(p.namespace_id(), 3);
    assert_eq!(p.table_id(), 4);
    assert_eq!(p.namespace_name().peek(), Some(&"namespace-bananas".to_string()));
    assert_eq!(p.table_name().peek(), Some(&"bananas".to_string()));
    assert_eq!(*p.sort_key(), SortKeyState::Provided(None));
}

#[test]
fn deferred_sort_key_is_fetched_once_and_stays_deferred() {
    let mut p = PartitionData::new(
        1,
        "bananas".to_string(),
        42,
        DeferredCell::new(),
        1,
        DeferredCell::new(),
        SortKeyState::Deferred(DeferredCell::new()),
    );
    assert_eq!(p.sort_key_access(), Access::Start);
    assert_eq!(p.sort_key_access(), Access::Join);
    assert_eq!(p.sort_key().get(), None);

    let fetched = Some(SortKey::from_columns(vec!["terrific".to_string()]));
    p.resolve_sort_key(fetched.clone());
    assert_eq!(p.sort_key_access(), Access::Ready);
    assert_eq!(p.sort_key().get(), Some(fetched.clone()));
    // Resolved, but not provided.
    assert!(matches!(p.sort_key(), SortKeyState::Deferred(_)));

    // A fetch that ends later does not replace the value.
    p.resolve_sort_key(None);
    assert_eq!(p.sort_key().get(), Some(fetched));

    // A provided key is ready at once, and a late fetch leaves it alone.
    let want = Some(SortKey::from_columns(vec!["banana".to_string(), "time".to_string()]));
    p.update_sort_key(want.clone());
    assert_eq!(p.sort_key_access(), Access::Ready);
    p.resolve_sort_key(None);
    assert_eq!(*p.sort_key(), SortKeyState::Provided(want));
}

#[test]
fn deferred_names_are_fetched_once() {
    let mut p = PartitionData::new(
        1,
        "bananas".to_string(),
        42,
        DeferredCell::new(),
        1,
        DeferredCell::new(),
        SortKeyState::Provided(None),
    );
    assert_eq!(p.namespace_name().peek(), None);
    assert_eq!(p.namespace_name_access(), Access::Start);
    assert_eq!(p.namespace_name_access(), Access::Join);
    assert_eq!(p.table_name_access(), Access::Start);
    p.resolve_namespace_name("ns".to_string());
    p.resolve_table_name("bananas".to_string());
    p.resolve_table_name("late".to_string());
    assert_eq!(p.namespace_name_access(), Access::Ready);
    assert_eq!(p.table_name_access(), Access::Ready);
    assert_eq!(p.namespace_name().peek(), Some(&"ns".to_string()));
    assert_eq!(p.table_name().peek(), Some(&"bananas".to_string()));
}

#[test]
fn freeze_count_starts_at_zero() {
    let mut p = new_partition();
    assert_eq!(p.started_persistence_count(), 0);
    p.buffer_write(batch_of(vec![x_row(1.0, 42)]), 1).unwrap();
    assert_eq!(p.started_persistence_count(), 0);
    let h = p.mark_persisting().unwrap();
    assert_eq!(p.started_persistence_count(), 1);
    p.mark_persisted(h);
    assert_eq!(p.started_persistence_count(), 1);
    assert!(p.mark_persisting().is_none());
    assert_eq!(p.started_persistence_count(), 1);
}

#[test]
fn buffered_rows_and_waiting_generations_are_counted() {
    let mut p = new_partition();
    assert!(!p.has_buffered_rows());
    assert_eq!(p.persisting_count(), 0);
    p.buffer_write(batch_of(vec![x_row(1.0, 42)]), 1).unwrap();
    assert!(p.has_buffered_rows());
    let h1 = p.mark_persisting().unwrap();
    assert!(!p.has_buffered_rows());
    assert_eq!(p.persisting_count(), 1);
    p.buffer_write(batch_of(vec![x_row(2.0, 42)]), 2).unwrap();
    let h2 = p.mark_persisting().unwrap();
    assert_eq!(p.persisting_count(), 2);
    // A freeze without rows takes no number and queues nothing.
    assert!(p.mark_persisting().is_none());
    assert_eq!(p.persisting_count(), 2);
    assert_eq!(p.started_persistence_count(), 2);
    p.mark_persisted(h1);
    p.mark_persisted(h2);
    assert_eq!(p.persisting_count(), 0);
}
