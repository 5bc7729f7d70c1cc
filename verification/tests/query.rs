use membase::columnar::{
    ColumnFile, CompressionType, DataType, Field, Operator, Predicate, Query, QueryBuilder,
    Schema, Table, TableBuilder,
};
use membase::Error;

fn schema() -> Schema {
    Schema::new(vec![
        Field::new("id", DataType::UInt64, false),
        Field::new("age", DataType::UInt8, true),
        Field::new("active", DataType::Boolean, false),
        Field::new("name", DataType::String, false),
    ])
    .unwrap()
}

fn files() -> Vec<ColumnFile> {
    let rows: [(u64, Option<u8>, bool, &str); 5] = [
        (1, Some(32), true, "alice"),
        (2, Some(45), true, "bob"),
        (3, Some(28), false, "charlie"),
        (4, None, true, "diana"),
        (5, Some(39), true, "ethan"),
    ];
    let mut b = TableBuilder::new("people", schema(), "db", CompressionType::Uncompressed);
    for (id, age, active, name) in rows {
        let values = vec![
            ("id".to_string(), Some(id.to_le_bytes().to_vec())),
            ("age".to_string(), age.map(|a| vec![a])),
            ("active".to_string(), Some(vec![active as u8])),
            ("name".to_string(), Some(name.as_bytes().to_vec())),
        ];
        b.add_row(&values).unwrap();
    }
    b.build().unwrap()
}

fn table(files: &[ColumnFile]) -> Table<'_> {
    let views: Vec<Option<&[u8]>> = files.iter().map(|f| Some(&f.bytes[..])).collect();
    Table::open("people", schema(), views).unwrap()
}

fn compare(column: &str, op: Operator, value: Option<Vec<u8>>) -> Predicate {
    Predicate::Compare { column: column.to_string(), op, value }
}

fn matching(t: &Table, p: &Predicate) -> Vec<u64> {
    (0..t.row_count()).filter(|&i| p.evaluate(t, i)).collect()
}

fn active_and_over_30() -> Predicate {
    Predicate::And(vec![
        compare("active", Operator::Eq, Some(vec![1])),
        compare("age", Operator::Gt, Some(vec![30])),
    ])
}

fn ids(rows: &[Vec<(String, Option<Vec<u8>>)>]) -> Vec<u64> {
    rows.iter()
        .map(|r| {
            let (name, value) = &r[0];
            assert_eq!(name, "id");
            let mut b = [0u8; 8];
            b.copy_from_slice(value.as_ref().unwrap());
            u64::from_le_bytes(b)
        })
        .collect()
}

#[test]
fn active_and_older_than_thirty() {
    let f = files();
    let t = table(&f);
    assert_eq!(matching(&t, &active_and_over_30()), vec![0, 1, 4]);
    let q = Query::new(t, vec!["id".to_string(), "age".to_string()], active_and_over_30());
    let rows = q.execute().unwrap();
    assert_eq!(ids(&rows), vec![1, 2, 5]);
    assert_eq!(rows[0].len(), 2);
    assert_eq!(rows[0][1], ("age".to_string(), Some(vec![32])));
    assert_eq!(rows[2][1], ("age".to_string(), Some(vec![39])));
}

#[test]
fn limit_truncates() {
    let f = files();
    let q = Query::new(table(&f), vec!["id".to_string()], active_and_over_30()).with_limit(2);
    assert_eq!(ids(&q.execute().unwrap()), vec![1, 2]);
    let q = Query::new(table(&f), vec!["id".to_string()], active_and_over_30()).with_limit(10);
    assert_eq!(ids(&q.execute().unwrap()), vec![1, 2, 5]);
}

#[test]
fn offset_and_limit_pick_the_second_match() {
    let f = files();
    let q = Query::new(table(&f), vec!["id".to_string()], active_and_over_30())
        .with_offset(1)
        .with_limit(1);
    assert_eq!(ids(&q.execute().unwrap()), vec![2]);
    let q = Query::new(table(&f), vec!["id".to_string()], active_and_over_30()).with_offset(2);
    assert_eq!(ids(&q.execute().unwrap()), vec![5]);
}

#[test]
fn offset_counts_matches_not_rows() {
    let f = files();
    let p = compare("active", Operator::Eq, Some(vec![0]));
    let q = Query::new(table(&f), vec!["id".to_string()], p).with_offset(0);
    assert_eq!(ids(&q.execute().unwrap()), vec![3]);
    let p = compare("id", Operator::Ge, Some(4u64.to_le_bytes().to_vec()));
    let q = Query::new(table(&f), vec!["id".to_string()], p).with_offset(1);
    assert_eq!(ids(&q.execute().unwrap()), vec![5]);
}

#[test]
fn offset_behind_the_matches_and_limit_zero_give_no_rows() {
    let f = files();
    let q = Query::new(table(&f), vec!["id".to_string()], active_and_over_30()).with_offset(3);
    assert!(q.execute().unwrap().is_empty());
    let q = Query::new(table(&f), vec!["id".to_string()], active_and_over_30()).with_offset(100);
    assert!(q.execute().unwrap().is_empty());
    let q = Query::new(table(&f), vec!["id".to_string()], Predicate::True).with_limit(0);
    assert!(q.execute().unwrap().is_empty());
}

#[test]
fn unknown_column_is_rejected() {
    let f = files();
    let q = Query::new(table(&f), vec!["id".to_string(), "nope".to_string()], Predicate::True);
    assert!(matches!(q.execute(), Err(Error::InvalidArgument(_))));
    let q = Query::new(table(&f), vec!["nope".to_string()], Predicate::True).with_limit(0);
    assert!(matches!(q.execute(), Err(Error::InvalidArgument(_))));
}

#[test]
fn nulls_come_back_as_none() {
    let f = files();
    let p = compare("id", Operator::Eq, Some(4u64.to_le_bytes().to_vec()));
    let q = Query::new(table(&f), vec!["age".to_string(), "name".to_string()], p);
    let rows = q.execute().unwrap();
    assert_eq!(
        rows,
        vec![vec![
            ("age".to_string(), None),
            ("name".to_string(), Some(b"diana".to_vec()))
        ]]
    );
}

#[test]
fn comparison_operators() {
    let f = files();
    let t = table(&f);
    let age = |op| compare("age", op, Some(vec![39]));
    assert_eq!(matching(&t, &age(Operator::Eq)), vec![4]);
    assert_eq!(matching(&t, &age(Operator::Ne)), vec![0, 1, 2]);
    assert_eq!(matching(&t, &age(Operator::Lt)), vec![0, 2]);
    assert_eq!(matching(&t, &age(Operator::Le)), vec![0, 2, 4]);
    assert_eq!(matching(&t, &age(Operator::Gt)), vec![1]);
    assert_eq!(matching(&t, &age(Operator::Ge)), vec![1, 4]);
    assert_eq!(matching(&t, &age(Operator::In)), Vec::<u64>::new());
    assert_eq!(matching(&t, &age(Operator::NotIn)), vec![0, 1, 2, 4]);
    assert_eq!(matching(&t, &compare("age", Operator::IsNull, None)), vec![3]);
    assert_eq!(matching(&t, &compare("age", Operator::IsNotNull, None)), vec![0, 1, 2, 4]);
    assert_eq!(matching(&t, &compare("age", Operator::Eq, None)), Vec::<u64>::new());
    assert_eq!(matching(&t, &compare("nope", Operator::IsNotNull, None)), Vec::<u64>::new());
    assert_eq!(matching(&t, &compare("nope", Operator::IsNull, None)), Vec::<u64>::new());
}

#[test]
fn order_is_that_of_byte_strings() {
    let f = files();
    let t = table(&f);
    let name = |op, v: &str| compare("name", op, Some(v.as_bytes().to_vec()));
    assert_eq!(matching(&t, &name(Operator::Lt, "bob")), vec![0]);
    assert_eq!(matching(&t, &name(Operator::Le, "bob")), vec![0, 1]);
    assert_eq!(matching(&t, &name(Operator::Gt, "c")), vec![2, 3, 4]);
    assert_eq!(matching(&t, &name(Operator::Lt, "alicea")), vec![0]);
    assert_eq!(matching(&t, &name(Operator::Lt, "alic")), Vec::<u64>::new());
    assert_eq!(matching(&t, &name(Operator::Ge, "")), vec![0, 1, 2, 3, 4]);
    assert_eq!(matching(&t, &name(Operator::Lt, "")), Vec::<u64>::new());
    // the low byte of a number decides first
    let id = compare("id", Operator::Lt, Some(vec![3, 0, 0, 0, 0, 0, 0, 0]));
    assert_eq!(matching(&t, &id), vec![0, 1]);
}

#[test]
fn substring_match() {
    let f = files();
    let t = table(&f);
    let like = |op, v: &[u8]| compare("name", op, Some(v.to_vec()));
    assert_eq!(matching(&t, &like(Operator::Like, b"an")), vec![3, 4]);
    assert_eq!(matching(&t, &like(Operator::Like, b"")), vec![0, 1, 2, 3, 4]);
    assert_eq!(matching(&t, &like(Operator::Like, b"alice")), vec![0]);
    assert_eq!(matching(&t, &like(Operator::Like, b"alicex")), Vec::<u64>::new());
    assert_eq!(matching(&t, &like(Operator::NotLike, b"an")), vec![0, 1, 2]);
    assert_eq!(matching(&t, &like(Operator::Like, &[0xFF])), Vec::<u64>::new());
    assert_eq!(matching(&t, &like(Operator::NotLike, &[0xFF])), vec![0, 1, 2, 3, 4]);
    // the bytes of an id are not text where they are not valid UTF-8
    let p = compare("id", Operator::Like, Some(vec![]));
    assert_eq!(matching(&t, &p), vec![0, 1, 2, 3, 4]);
}

#[test]
fn connectives() {
    let f = files();
    let t = table(&f);
    let active = || compare("active", Operator::Eq, Some(vec![1]));
    let young = || compare("age", Operator::Lt, Some(vec![35]));
    assert_eq!(matching(&t, &Predicate::And(vec![])), vec![0, 1, 2, 3, 4]);
    assert_eq!(matching(&t, &Predicate::Or(vec![])), Vec::<u64>::new());
    assert_eq!(matching(&t, &Predicate::True), vec![0, 1, 2, 3, 4]);
    assert_eq!(matching(&t, &Predicate::False), Vec::<u64>::new());
    assert_eq!(matching(&t, &Predicate::And(vec![active(), young()])), vec![0]);
    assert_eq!(matching(&t, &Predicate::Or(vec![active(), young()])), vec![0, 1, 2, 3, 4]);
    assert_eq!(matching(&t, &Predicate::Not(Box::new(active()))), vec![2]);
    assert_eq!(matching(&t, &Predicate::Not(Box::new(young()))), vec![1, 3, 4]);
    let nested = Predicate::Or(vec![
        Predicate::And(vec![active(), Predicate::Not(Box::new(young()))]),
        Predicate::And(vec![Predicate::False, Predicate::True]),
    ]);
    assert_eq!(matching(&t, &nested), vec![1, 3, 4]);
    assert!(!Predicate::True.evaluate(&t, 5) || t.row_count() == 5);
}

#[test]
fn evaluation_is_repeatable() {
    let f = files();
    let t = table(&f);
    let p = active_and_over_30();
    for i in 0..t.row_count() {
        assert_eq!(p.evaluate(&t, i), p.evaluate(&t, i));
    }
}

#[test]
fn query_builder_defaults_and_steps() {
    let f = files();
    let q = QueryBuilder::new(table(&f)).build();
    let rows = q.execute().unwrap();
    assert_eq!(rows.len(), 5);
    let names: Vec<&str> = rows[0].iter().map(|(n, _)| n.as_str()).collect();
    assert_eq!(names, vec!["id", "age", "active", "name"]);

    let q = QueryBuilder::new(table(&f))
        .select(vec!["id".to_string()])
        .filter(active_and_over_30())
        .offset(1)
        .limit(1)
        .build();
    assert_eq!(ids(&q.execute().unwrap()), vec![2]);
    assert_eq!(q.table().row_count(), 5);
}

#[test]
fn copy_of_a_predicate_holds_of_the_same_rows() {
    let f = files();
    let t = table(&f);
    let p = Predicate::Or(vec![
        active_and_over_30(),
        Predicate::Not(Box::new(compare("name", Operator::Like, Some(b"a".to_vec())))),
        compare("age", Operator::IsNull, None),
    ]);
    let q = p.clone();
    assert_eq!(matching(&t, &p), matching(&t, &q));
    assert_eq!(matching(&t, &q), vec![0, 1, 3, 4]);
}
