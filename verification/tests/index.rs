use membase::columnar::{Column, ColumnBuilder, CompressionType, DataType, Field, Index, IndexType};

fn column_bytes() -> Vec<u8> {
    let mut b = ColumnBuilder::new(
        Field::new("city", DataType::String, true),
        CompressionType::Uncompressed,
    );
    for v in [Some("oslo"), Some("bern"), None, Some("oslo"), Some("rome"), Some("bern"), Some("oslo")]
    {
        match v {
            Some(s) => b.append_string(s).unwrap(),
            None => b.append_null().unwrap(),
        }
    }
    b.to_bytes().unwrap()
}

#[test]
fn index_is_empty_before_build() {
    let index = Index::new("city", IndexType::Hash, "db");
    assert_eq!(index.column_name(), "city");
    assert_eq!(index.index_type(), IndexType::Hash);
    assert_eq!(index.cardinality(), 0);
    assert_eq!(index.entry_count(), 0);
    assert_eq!(index.lookup(b"oslo"), None);
    assert!(index.lookup_range(b"", b"zzzz").is_empty());
}

#[test]
fn lookup_gives_the_rows_of_a_value() {
    let bytes = column_bytes();
    let column = Column::open(&bytes).unwrap();
    let mut index = Index::new("city", IndexType::BTree, "db");
    index.build(&column).unwrap();
    assert_eq!(index.lookup(b"oslo"), Some(&[0u64, 3, 6][..]));
    assert_eq!(index.lookup(b"bern"), Some(&[1u64, 5][..]));
    assert_eq!(index.lookup(b"rome"), Some(&[4u64][..]));
    assert_eq!(index.lookup(b"paris"), None);
    assert_eq!(index.lookup(b""), None);
    assert_eq!(index.cardinality(), 3);
    assert_eq!(index.entry_count(), 6);
}

#[test]
fn lookup_range_is_sorted_and_inclusive() {
    let bytes = column_bytes();
    let column = Column::open(&bytes).unwrap();
    let mut index = Index::new("city", IndexType::BTree, "db");
    index.build(&column).unwrap();
    assert_eq!(index.lookup_range(b"a", b"z"), vec![0, 1, 3, 4, 5, 6]);
    assert_eq!(index.lookup_range(b"bern", b"oslo"), vec![0, 1, 3, 5, 6]);
    assert_eq!(index.lookup_range(b"bern", b"bern"), vec![1, 5]);
    assert_eq!(index.lookup_range(b"c", b"p"), vec![0, 3, 6]);
    assert_eq!(index.lookup_range(b"p", b"rome"), vec![4]);
    assert_eq!(index.lookup_range(b"p", b"rom"), Vec::<u64>::new());
    assert_eq!(index.lookup_range(b"z", b"a"), Vec::<u64>::new());
}

#[test]
fn build_replaces_what_was_there() {
    let bytes = column_bytes();
    let column = Column::open(&bytes).unwrap();
    let mut index = Index::new("city", IndexType::Inverted, "db");
    index.build(&column).unwrap();
    let mut b = ColumnBuilder::new(
        Field::new("n", DataType::UInt8, false),
        CompressionType::Uncompressed,
    );
    b.append_u8(1).unwrap();
    b.append_u8(1).unwrap();
    let other = b.to_bytes().unwrap();
    index.build(&Column::open(&other).unwrap()).unwrap();
    assert_eq!(index.lookup(b"oslo"), None);
    assert_eq!(index.lookup(&[1]), Some(&[0u64, 1][..]));
    assert_eq!(index.cardinality(), 1);
    assert_eq!(index.entry_count(), 2);
    assert_eq!(index.index_type(), IndexType::Inverted);
}
